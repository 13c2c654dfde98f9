//! A parser for XDR protocol definition text (`.x` files).
//!
//! Parsing runs in two phases. A lexical pass ([`remove_comments`])
//! strips block and line comments, preprocessor lines and passthrough
//! lines while preserving newlines. A recursive-descent pass then
//! reads constant and type definitions into a [`Protocol`], and two
//! post-passes fill in the protocol's metadata: its program identifier
//! and version from well-known constants, and its procedure table from
//! the protocol's procedure enum.

use vstd::prelude::*;

verus! {

use crate::ast::Constant;
use crate::ast::ConstValue;
use crate::ast::EnumDef;
use crate::ast::EnumVariant;
use crate::ast::Field;
use crate::ast::LengthSpec;
use crate::ast::Priority;
use crate::ast::Procedure;
use crate::ast::Protocol;
use crate::ast::StructDef;
use crate::ast::Type;
use crate::ast::TypeDef;
use crate::ast::TypedefDef;
use crate::ast::UnionCase;
use crate::ast::UnionDef;
use crate::codec::ascii_to_string;
use crate::codec::chars_of_ascii;
use vstd::string::StringSliceAdditionalSpecFns;
use vstd::utf8::encode_utf8;

/// A syntax error: where parsing stopped, and what was expected there.
#[derive(Debug, Clone, PartialEq)]
pub struct ParseError {
    /// The input offset at which parsing failed.
    pub pos: usize,
    /// What the parser was looking for.
    pub expected: &'static str,
}

/// Whitespace: space, tab, newline, carriage return.
pub open spec fn is_space(b: u8) -> bool {
    b == 32 || b == 9 || b == 10 || b == 13
}

/// A letter or underscore: what an identifier may start with.
pub open spec fn is_ident_start(b: u8) -> bool {
    (65 <= b <= 90) || (97 <= b <= 122) || b == 95
}

/// A letter, digit or underscore: what an identifier continues with.
pub open spec fn is_ident_char(b: u8) -> bool {
    is_ident_start(b) || (48 <= b <= 57)
}

/// A decimal digit.
pub open spec fn is_digit(b: u8) -> bool {
    48 <= b <= 57
}

/// A hexadecimal digit.
pub open spec fn is_hex_digit(b: u8) -> bool {
    is_digit(b) || (97 <= b <= 102) || (65 <= b <= 70)
}

/// The value of a hexadecimal digit.
pub open spec fn hex_digit_value(b: u8) -> int {
    if is_digit(b) {
        b - 48
    } else if 97 <= b <= 102 {
        b - 87
    } else {
        b - 55
    }
}

/// The value of a string of decimal digits, most significant first.
pub open spec fn dec_value(s: Seq<u8>) -> int
    decreases s.len(),
{
    if s.len() == 0 {
        0
    } else {
        dec_value(s.drop_last()) * 10 + (s.last() - 48)
    }
}

/// The value of a string of hexadecimal digits, most significant
/// first.
pub open spec fn hex_value(s: Seq<u8>) -> int
    decreases s.len(),
{
    if s.len() == 0 {
        0
    } else {
        hex_value(s.drop_last()) * 16 + hex_digit_value(s.last())
    }
}

/// The end of the run of decimal digits starting at `pos`.
pub open spec fn digits_end(s: Seq<u8>, pos: int) -> int
    decreases s.len() - pos when 0 <= pos <= s.len()
{
    if pos >= s.len() || !is_digit(s[pos]) {
        pos
    } else {
        digits_end(s, pos + 1)
    }
}

/// The end of the run of hexadecimal digits starting at `pos`.
pub open spec fn hex_digits_end(s: Seq<u8>, pos: int) -> int
    decreases s.len() - pos when 0 <= pos <= s.len()
{
    if pos >= s.len() || !is_hex_digit(s[pos]) {
        pos
    } else {
        hex_digits_end(s, pos + 1)
    }
}

/// A run of decimal digits ends exactly where they stop.
proof fn lemma_digits_end_characterize(s: Seq<u8>, pos: int, r: int)
    requires
        0 <= pos <= r <= s.len(),
        forall|k: int| pos <= k < r ==> is_digit(s[k]),
        r < s.len() ==> !is_digit(s[r]),
    ensures
        r == digits_end(s, pos),
    decreases r - pos,
{
    if pos < r {
        lemma_digits_end_characterize(s, pos + 1, r);
    }
}

/// A run of hexadecimal digits ends exactly where they stop.
proof fn lemma_hex_digits_end_characterize(s: Seq<u8>, pos: int, r: int)
    requires
        0 <= pos <= r <= s.len(),
        forall|k: int| pos <= k < r ==> is_hex_digit(s[k]),
        r < s.len() ==> !is_hex_digit(s[r]),
    ensures
        r == hex_digits_end(s, pos),
    decreases r - pos,
{
    if pos < r {
        lemma_hex_digits_end_characterize(s, pos + 1, r);
    }
}

/// Digit values are never negative.
proof fn lemma_dec_value_nonneg(d: Seq<u8>)
    ensures
        (forall|k: int| 0 <= k < d.len() ==> is_digit(d[k])) ==> dec_value(d) >= 0,
    decreases d.len(),
{
    if d.len() > 0 {
        lemma_dec_value_nonneg(d.drop_last());
    }
}

/// Hexadecimal digit values are never negative.
proof fn lemma_hex_value_nonneg(d: Seq<u8>)
    ensures
        (forall|k: int| 0 <= k < d.len() ==> is_hex_digit(d[k])) ==> hex_value(d) >= 0,
    decreases d.len(),
{
    if d.len() > 0 {
        lemma_hex_value_nonneg(d.drop_last());
    }
}

/// A longer decimal run's value is at least the shorter run's.
proof fn lemma_dec_prefix_grows(s: Seq<u8>, pos: int, a: int, b: int)
    requires
        0 <= pos <= a <= b <= s.len(),
        forall|k: int| pos <= k < b ==> is_digit(s[k]),
    ensures
        dec_value(s.subrange(pos, b)) >= dec_value(s.subrange(pos, a)),
    decreases b - a,
{
    lemma_dec_value_nonneg(s.subrange(pos, a));
    if a < b {
        assert(s.subrange(pos, a + 1).drop_last() =~= s.subrange(pos, a));
        lemma_dec_value_nonneg(s.subrange(pos, a + 1));
        assert(dec_value(s.subrange(pos, a + 1)) >= dec_value(s.subrange(pos, a)));
        lemma_dec_prefix_grows(s, pos, a + 1, b);
    }
}

/// A longer hexadecimal run's value is at least the shorter run's.
proof fn lemma_hex_prefix_grows(s: Seq<u8>, pos: int, a: int, b: int)
    requires
        0 <= pos <= a <= b <= s.len(),
        forall|k: int| pos <= k < b ==> is_hex_digit(s[k]),
    ensures
        hex_value(s.subrange(pos, b)) >= hex_value(s.subrange(pos, a)),
    decreases b - a,
{
    lemma_hex_value_nonneg(s.subrange(pos, a));
    if a < b {
        assert(s.subrange(pos, a + 1).drop_last() =~= s.subrange(pos, a));
        lemma_hex_value_nonneg(s.subrange(pos, a + 1));
        assert(hex_value(s.subrange(pos, a + 1)) >= hex_value(s.subrange(pos, a)));
        lemma_hex_prefix_grows(s, pos, a + 1, b);
    }
}

/// Everything below a decimal run's end is a digit.
proof fn lemma_digits_end_whole(s: Seq<u8>, pos: int)
    requires
        0 <= pos <= s.len(),
    ensures
        pos <= digits_end(s, pos) <= s.len(),
        forall|k: int| pos <= k < digits_end(s, pos) ==> is_digit(s[k]),
        digits_end(s, pos) < s.len() ==> !is_digit(s[digits_end(s, pos)]),
    decreases s.len() - pos,
{
    if pos < s.len() && is_digit(s[pos]) {
        lemma_digits_end_whole(s, pos + 1);
    }
}

/// The decimal run reaches past any position below which everything
/// is a digit.
proof fn lemma_digits_end_past(s: Seq<u8>, pos: int, upto: int)
    requires
        0 <= pos <= upto <= s.len(),
        forall|k: int| pos <= k < upto ==> is_digit(s[k]),
    ensures
        digits_end(s, pos) >= upto,
    decreases upto - pos,
{
    if pos < upto {
        assert(is_digit(s[pos]));
        lemma_digits_end_past(s, pos + 1, upto);
    } else {
        lemma_digits_end_whole(s, pos);
    }
}

/// Everything below a hexadecimal run's end is a hexadecimal digit.
proof fn lemma_hex_digits_end_whole(s: Seq<u8>, pos: int)
    requires
        0 <= pos <= s.len(),
    ensures
        pos <= hex_digits_end(s, pos) <= s.len(),
        forall|k: int| pos <= k < hex_digits_end(s, pos) ==> is_hex_digit(s[k]),
        hex_digits_end(s, pos) < s.len() ==> !is_hex_digit(s[hex_digits_end(s, pos)]),
    decreases s.len() - pos,
{
    if pos < s.len() && is_hex_digit(s[pos]) {
        lemma_hex_digits_end_whole(s, pos + 1);
    }
}

/// The hexadecimal run reaches past any position below which
/// everything is a hexadecimal digit.
proof fn lemma_hex_digits_end_past(s: Seq<u8>, pos: int, upto: int)
    requires
        0 <= pos <= upto <= s.len(),
        forall|k: int| pos <= k < upto ==> is_hex_digit(s[k]),
    ensures
        hex_digits_end(s, pos) >= upto,
    decreases upto - pos,
{
    if pos < upto {
        assert(is_hex_digit(s[pos]));
        lemma_hex_digits_end_past(s, pos + 1, upto);
    } else {
        lemma_hex_digits_end_whole(s, pos);
    }
}

/// An integer literal can be read at `pos`: a hexadecimal form whose
/// digits fit a signed 64-bit value, or a decimal form — with an
/// optional minus sign — whose magnitude fits.
pub open spec fn spec_integer_ok(s: Seq<u8>, pos: int) -> bool {
    let hex_ok = 0 <= pos && pos + 2 <= s.len() && s[pos] == 48 && (s[pos + 1] == 120 || s[pos
        + 1] == 88) && hex_digits_end(s, pos + 2) > pos + 2 && hex_value(
        s.subrange(pos + 2, hex_digits_end(s, pos + 2)),
    ) <= i64::MAX;
    let neg = 0 <= pos < s.len() && s[pos] == 45;
    let d0 = if neg {
        pos + 1
    } else {
        pos
    };
    hex_ok || (0 <= d0 < s.len() && is_digit(s[d0]) && (if neg {
        dec_value(s.subrange(d0, digits_end(s, d0))) <= 0x8000_0000_0000_0000
    } else {
        dec_value(s.subrange(d0, digits_end(s, d0))) <= i64::MAX
    }))
}

/// Where the integer literal read at `pos` ends: after the
/// hexadecimal digits where the hexadecimal form fits, after the
/// decimal digits otherwise.
pub open spec fn spec_integer_end(s: Seq<u8>, pos: int) -> int {
    let hex_ok = 0 <= pos && pos + 2 <= s.len() && s[pos] == 48 && (s[pos + 1] == 120 || s[pos
        + 1] == 88) && hex_digits_end(s, pos + 2) > pos + 2 && hex_value(
        s.subrange(pos + 2, hex_digits_end(s, pos + 2)),
    ) <= i64::MAX;
    let neg = 0 <= pos < s.len() && s[pos] == 45;
    let d0 = if neg {
        pos + 1
    } else {
        pos
    };
    if hex_ok {
        hex_digits_end(s, pos + 2)
    } else {
        digits_end(s, d0)
    }
}

/// A constant value can be read at `pos`: an integer literal or an
/// identifier.
pub open spec fn spec_const_value_ok(s: Seq<u8>, pos: int) -> bool {
    spec_integer_ok(s, pos) || spec_ident_end(s, pos) >= 0
}

/// Where the constant value read at `pos` ends.
pub open spec fn spec_const_value_end(s: Seq<u8>, pos: int) -> int {
    if spec_integer_ok(s, pos) {
        spec_integer_end(s, pos)
    } else {
        spec_ident_end(s, pos)
    }
}

/// The first position at or after `pos` that holds a non-whitespace
/// byte, or the end of input.
pub open spec fn spec_skip_ws(s: Seq<u8>, pos: int) -> int
    decreases s.len() - pos when 0 <= pos <= s.len()
{
    if pos >= s.len() || !is_space(s[pos]) {
        pos
    } else {
        spec_skip_ws(s, pos + 1)
    }
}

/// The position where whitespace ends is the one past a run of
/// whitespace that stops at the end or at a non-whitespace byte.
proof fn lemma_skip_ws_characterize(s: Seq<u8>, pos: int, r: int)
    requires
        0 <= pos <= r <= s.len(),
        forall|k: int| pos <= k < r ==> is_space(s[k]),
        r < s.len() ==> !is_space(s[r]),
    ensures
        r == spec_skip_ws(s, pos),
    decreases r - pos,
{
    if pos < r {
        lemma_skip_ws_characterize(s, pos + 1, r);
    }
}

/// Skip whitespace: the first position at or after `pos` that holds a
/// non-whitespace byte, or the end of input.
pub fn skip_ws(s: &[u8], pos: usize) -> (r: usize)
    requires
        pos <= s@.len(),
    ensures
        pos <= r <= s@.len(),
        forall|k: int| pos <= k < r ==> is_space(s@[k]),
        r < s@.len() ==> !is_space(s@[r as int]),
        r == spec_skip_ws(s@, pos as int),
{
    let r = skip_ws_inner(s, pos);
    proof {
        lemma_skip_ws_characterize(s@, pos as int, r as int);
    }
    r
}

/// The whitespace-skipping loop behind [`skip_ws`].
fn skip_ws_inner(s: &[u8], pos: usize) -> (r: usize)
    requires
        pos <= s@.len(),
    ensures
        pos <= r <= s@.len(),
        forall|k: int| pos <= k < r ==> is_space(s@[k]),
        r < s@.len() ==> !is_space(s@[r as int]),
{
    let mut i = pos;
    while i < s.len()
        invariant
            pos <= i <= s@.len(),
            forall|k: int| pos <= k < i ==> is_space(s@[k]),
        decreases s@.len() - i,
    {
        let b = s[i];
        if !(b == 32 || b == 9 || b == 10 || b == 13) {
            return i;
        }
        i = i + 1;
    }
    i
}

/// Whether the literal `t` stands at `pos`; on a match, the position
/// just after it.
pub fn tag_at(s: &[u8], pos: usize, t: &[u8]) -> (r: Option<usize>)
    requires
        pos <= s@.len(),
    ensures
        r is Some <==> pos + t@.len() <= s@.len() && s@.subrange(
            pos as int,
            pos + t@.len(),
        ) == t@,
        r matches Some(p) ==> p == pos + t@.len(),
{
    let sl = s.len();
    let tl = t.len();
    if tl > sl - pos {
        proof {
            assert(pos + t@.len() > s@.len());
        }
        return None;
    }
    let mut j: usize = 0;
    while j < tl
        invariant
            j <= tl,
            tl == t@.len(),
            sl == s@.len(),
            pos + tl <= sl,
            forall|k: int| 0 <= k < j ==> s@[pos + k] == t@[k],
        decreases tl - j,
    {
        if s[pos + j] != t[j] {
            proof {
                assert(s@.subrange(pos as int, pos + t@.len())[j as int] == s@[pos + j]);
            }
            return None;
        }
        j = j + 1;
    }
    proof {
        assert(s@.subrange(pos as int, pos + t@.len()) =~= t@);
    }
    Some(pos + tl)
}

/// Whether two byte buffers hold the same bytes.
pub fn bytes_eq(a: &[u8], b: &[u8]) -> (r: bool)
    ensures
        r == (a@ == b@),
{
    if a.len() != b.len() {
        proof {
            assert(a@ != b@);
        }
        return false;
    }
    let mut j: usize = 0;
    while j < a.len()
        invariant
            j <= a@.len(),
            a@.len() == b@.len(),
            forall|k: int| 0 <= k < j ==> a@[k] == b@[k],
        decreases a@.len() - j,
    {
        if a[j] != b[j] {
            return false;
        }
        j = j + 1;
    }
    proof {
        assert(a@ =~= b@);
    }
    true
}

/// Whether two strings hold the same characters.
pub fn str_eq(a: &str, b: &str) -> (r: bool)
    ensures
        r == (a@ == b@),
{
    let r = bytes_eq(a.as_bytes(), b.as_bytes());
    proof {
        if a.spec_bytes() == b.spec_bytes() {
            broadcast use vstd::utf8::encode_utf8_decode_utf8;

            assert(decode_utf8_of(a@) == decode_utf8_of(b@));
        }
    }
    r
}

/// The characters a UTF-8 encoding decodes back to; equal encodings
/// come from equal character sequences.
spec fn decode_utf8_of(s: Seq<char>) -> Seq<char> {
    vstd::utf8::decode_utf8(encode_utf8(s))
}

/// An identifier at `pos`: a letter or underscore followed by the
/// longest run of letters, digits and underscores. Succeeds exactly
/// when an identifier can start there.
pub fn identifier(s: &[u8], pos: usize) -> (r: Result<(String, usize), ParseError>)
    requires
        pos <= s@.len(),
    ensures
        r is Ok <==> pos < s@.len() && is_ident_start(s@[pos as int]),
        r is Ok <==> spec_ident_end(s@, pos as int) >= 0,
        r matches Ok((id, end)) ==> {
            &&& pos < end <= s@.len()
            &&& forall|k: int| pos <= k < end ==> is_ident_char(s@[k])
            &&& (end < s@.len() ==> !is_ident_char(s@[end as int]))
            &&& id@ == chars_of_ascii(s@.subrange(pos as int, end as int))
            &&& spec_identifier_at(s@, pos as int, id@, end as int)
        },
{
    if pos >= s.len() {
        return Err(ParseError { pos, expected: "identifier" });
    }
    let b0 = s[pos];
    if !((65 <= b0 && b0 <= 90) || (97 <= b0 && b0 <= 122) || b0 == 95) {
        return Err(ParseError { pos, expected: "identifier" });
    }
    let mut end = pos + 1;
    while end < s.len()
        invariant_except_break
            pos < end <= s@.len(),
            forall|k: int| pos <= k < end ==> is_ident_char(s@[k]),
        ensures
            pos < end <= s@.len(),
            forall|k: int| pos <= k < end ==> is_ident_char(s@[k]),
            end < s@.len() ==> !is_ident_char(s@[end as int]),
        decreases s@.len() - end,
    {
        let b = s[end];
        if !((65 <= b && b <= 90) || (97 <= b && b <= 122) || b == 95 || (48 <= b && b <= 57)) {
            break ;
        }
        end = end + 1;
    }
    let bytes = vstd::slice::slice_to_vec(vstd::slice::slice_subrange(s, pos, end));
    proof {
        assert(forall|i: int| 0 <= i < bytes@.len() ==> bytes@[i] < 128);
        lemma_ident_run_characterize(s@, pos + 1, end as int);
    }
    let id = ascii_to_string(bytes);
    Ok((id, end))
}

/// An integer literal of value `v` stands at `pos` and ends at `end`:
/// either `0x` (or `0X`) followed by the longest run of hexadecimal
/// digits, or an optional minus sign followed by the longest run of
/// decimal digits.
pub open spec fn spec_integer_at(s: Seq<u8>, pos: int, v: i64, end: int) -> bool {
    ||| (pos + 2 < end <= s.len() && s[pos] == 48 && (s[pos + 1] == 120 || s[pos + 1] == 88) && (
    forall|k: int| pos + 2 <= k < end ==> is_hex_digit(s[k])) && (end < s.len()
        ==> !is_hex_digit(s[end])) && v == hex_value(s.subrange(pos + 2, end)))
    ||| ({
        let d0 = if s[pos] == 45 {
            pos + 1
        } else {
            pos
        };
        &&& pos <= d0 < end <= s.len()
        &&& forall|k: int| d0 <= k < end ==> is_digit(s[k])
        &&& (end < s.len() ==> !is_digit(s[end]))
        &&& v == if s[pos] == 45 {
            -dec_value(s.subrange(d0, end))
        } else {
            dec_value(s.subrange(d0, end))
        }
    })
}

/// Scan the longest run of decimal digits from `pos` and accumulate
/// its value; fails only past 64 bits.
fn scan_dec(s: &[u8], pos: usize) -> (r: Option<(u64, usize)>)
    requires
        pos <= s@.len(),
    ensures
        r matches Some((v, end)) ==> {
            &&& pos < end <= s@.len()
            &&& forall|k: int| pos <= k < end ==> is_digit(s@[k])
            &&& (end < s@.len() ==> !is_digit(s@[end as int]))
            &&& v == dec_value(s@.subrange(pos as int, end as int))
            &&& end == digits_end(s@, pos as int)
        },
        r is None ==> (pos as int >= s@.len() || !is_digit(s@[pos as int]) || dec_value(
            s@.subrange(pos as int, digits_end(s@, pos as int)),
        ) > u64::MAX),
{
    if pos >= s.len() || !(48 <= s[pos] && s[pos] <= 57) {
        return None;
    }
    let mut end = pos;
    let mut v: u64 = 0;
    while end < s.len()
        invariant_except_break
            pos <= end <= s@.len(),
            forall|k: int| pos <= k < end ==> is_digit(s@[k]),
            v == dec_value(s@.subrange(pos as int, end as int)),
        ensures
            pos <= end <= s@.len(),
            forall|k: int| pos <= k < end ==> is_digit(s@[k]),
            v == dec_value(s@.subrange(pos as int, end as int)),
            end < s@.len() ==> !is_digit(s@[end as int]),
        decreases s@.len() - end,
    {
        let b = s[end];
        if !(48 <= b && b <= 57) {
            break ;
        }
        let d: u64 = (b - 48) as u64;
        proof {
            assert(s@.subrange(pos as int, end + 1).drop_last() =~= s@.subrange(
                pos as int,
                end as int,
            ));
        }
        let v10 = match v.checked_mul(10) {
            Some(x) => x,
            None => {
                proof {
                    assert(dec_value(s@.subrange(pos as int, end + 1)) > u64::MAX);
                    lemma_digits_end_past(s@, pos as int, end + 1);
                    lemma_digits_end_whole(s@, pos as int);
                    lemma_dec_prefix_grows(s@, pos as int, end + 1, digits_end(s@, pos as int));
                }
                return None;
            },
        };
        let v2 = match v10.checked_add(d) {
            Some(x) => x,
            None => {
                proof {
                    assert(dec_value(s@.subrange(pos as int, end + 1)) > u64::MAX);
                    lemma_digits_end_past(s@, pos as int, end + 1);
                    lemma_digits_end_whole(s@, pos as int);
                    lemma_dec_prefix_grows(s@, pos as int, end + 1, digits_end(s@, pos as int));
                }
                return None;
            },
        };
        v = v2;
        end = end + 1;
    }
    if end == pos {
        return None;
    }
    proof {
        lemma_digits_end_characterize(s@, pos as int, end as int);
    }
    Some((v, end))
}

/// Scan the longest run of hexadecimal digits from `pos` and
/// accumulate its value; fails only past 64 bits.
fn scan_hex(s: &[u8], pos: usize) -> (r: Option<(u64, usize)>)
    requires
        pos <= s@.len(),
    ensures
        r matches Some((v, end)) ==> {
            &&& pos < end <= s@.len()
            &&& forall|k: int| pos <= k < end ==> is_hex_digit(s@[k])
            &&& (end < s@.len() ==> !is_hex_digit(s@[end as int]))
            &&& v == hex_value(s@.subrange(pos as int, end as int))
            &&& end == hex_digits_end(s@, pos as int)
        },
        r is None ==> (pos as int >= s@.len() || !is_hex_digit(s@[pos as int]) || hex_value(
            s@.subrange(pos as int, hex_digits_end(s@, pos as int)),
        ) > u64::MAX),
{
    if pos >= s.len() {
        return None;
    }
    let b0 = s[pos];
    if !((48 <= b0 && b0 <= 57) || (97 <= b0 && b0 <= 102) || (65 <= b0 && b0 <= 70)) {
        return None;
    }
    let mut end = pos;
    let mut v: u64 = 0;
    while end < s.len()
        invariant_except_break
            pos <= end <= s@.len(),
            forall|k: int| pos <= k < end ==> is_hex_digit(s@[k]),
            v == hex_value(s@.subrange(pos as int, end as int)),
        ensures
            pos <= end <= s@.len(),
            forall|k: int| pos <= k < end ==> is_hex_digit(s@[k]),
            v == hex_value(s@.subrange(pos as int, end as int)),
            end < s@.len() ==> !is_hex_digit(s@[end as int]),
        decreases s@.len() - end,
    {
        let b = s[end];
        let d: u64 = if 48 <= b && b <= 57 {
            (b - 48) as u64
        } else if 97 <= b && b <= 102 {
            (b - 87) as u64
        } else if 65 <= b && b <= 70 {
            (b - 55) as u64
        } else {
            break ;
        };
        proof {
            assert(s@.subrange(pos as int, end + 1).drop_last() =~= s@.subrange(
                pos as int,
                end as int,
            ));
        }
        let v16 = match v.checked_mul(16) {
            Some(x) => x,
            None => {
                proof {
                    assert(hex_value(s@.subrange(pos as int, end + 1)) > u64::MAX);
                    lemma_hex_digits_end_past(s@, pos as int, end + 1);
                    lemma_hex_digits_end_whole(s@, pos as int);
                    lemma_hex_prefix_grows(s@, pos as int, end + 1, hex_digits_end(s@, pos as int));
                }
                return None;
            },
        };
        let v2 = match v16.checked_add(d) {
            Some(x) => x,
            None => {
                proof {
                    assert(hex_value(s@.subrange(pos as int, end + 1)) > u64::MAX);
                    lemma_hex_digits_end_past(s@, pos as int, end + 1);
                    lemma_hex_digits_end_whole(s@, pos as int);
                    lemma_hex_prefix_grows(s@, pos as int, end + 1, hex_digits_end(s@, pos as int));
                }
                return None;
            },
        };
        v = v2;
        end = end + 1;
    }
    if end == pos {
        return None;
    }
    proof {
        lemma_hex_digits_end_characterize(s@, pos as int, end as int);
    }
    Some((v, end))
}

/// An integer literal: `0x` (or `0X`) and hexadecimal digits, or an
/// optional minus sign and decimal digits, whichever matches first.
/// A literal that does not fit a 64-bit signed integer is not taken.
pub fn integer(s: &[u8], pos: usize) -> (r: Result<(i64, usize), ParseError>)
    requires
        pos <= s@.len(),
    ensures
        r matches Ok((v, end)) ==> pos < end <= s@.len() && spec_integer_at(
            s@,
            pos as int,
            v,
            end as int,
        ),
        r is Ok <==> spec_integer_ok(s@, pos as int),
        r matches Ok((v, end)) ==> end == spec_integer_end(s@, pos as int),
{
    if s.len() - pos >= 2 && s[pos] == 48 && (s[pos + 1] == 120 || s[pos + 1] == 88) {
        match scan_hex(s, pos + 2) {
            Some((v, end)) => {
                if v <= 0x7fff_ffff_ffff_ffff {
                    return Ok((v as i64, end));
                }
            },
            None => {},
        }
    }
    let neg = pos < s.len() && s[pos] == 45;
    let d0 = if neg {
        pos + 1
    } else {
        pos
    };
    if d0 > s.len() {
        return Err(ParseError { pos, expected: "integer" });
    }
    match scan_dec(s, d0) {
        Some((mag, end)) => {
            if neg {
                if mag > 0x8000_0000_0000_0000 {
                    Err(ParseError { pos, expected: "integer" })
                } else if mag == 0x8000_0000_0000_0000 {
                    Ok((i64::MIN, end))
                } else {
                    Ok((-(mag as i64), end))
                }
            } else {
                if mag > 0x7fff_ffff_ffff_ffff {
                    Err(ParseError { pos, expected: "integer" })
                } else {
                    Ok((mag as i64, end))
                }
            }
        },
        None => Err(ParseError { pos, expected: "integer" }),
    }
}

/// The constant value `cv` read at `pos`, ending at `end`: an integer
/// literal or an identifier.
pub open spec fn spec_const_value_at(s: Seq<u8>, pos: int, cv: ConstValue, end: int) -> bool {
    match cv {
        ConstValue::Int(n) => spec_integer_at(s, pos, n, end),
        ConstValue::Ident(id) => spec_identifier_at(s, pos, id@, end),
    }
}

/// A constant value: an integer literal, or an identifier referring to
/// another constant.
pub fn const_value(s: &[u8], pos: usize) -> (r: Result<(ConstValue, usize), ParseError>)
    requires
        pos <= s@.len(),
    ensures
        r matches Ok((cv, end)) ==> pos < end <= s@.len(),
        r matches Ok((cv, end)) ==> spec_const_value_at(s@, pos as int, cv, end as int),
        r is Ok <==> spec_const_value_ok(s@, pos as int),
        r matches Ok((cv, end)) ==> end == spec_const_value_end(s@, pos as int),
{
    match integer(s, pos) {
        Ok((n, end)) => Ok((ConstValue::Int(n), end)),
        Err(_) => match identifier(s, pos) {
            Ok((id, end)) => Ok((ConstValue::Ident(id), end)),
            Err(e) => Err(e),
        },
    }
}

/// Resolve the well-known length constants of the libvirt headers:
/// exactly the UUID buffer lengths, 16 and 37 bytes.
pub fn resolve_well_known_constant(name: &str) -> (r: Option<u32>)
    ensures
        name@ == "VIR_UUID_BUFLEN"@ ==> r == Some(16u32),
        name@ == "VIR_UUID_STRING_BUFLEN"@ ==> r == Some(37u32),
        (name@ != "VIR_UUID_BUFLEN"@ && name@ != "VIR_UUID_STRING_BUFLEN"@) ==> r is None,
{
    proof {
        reveal_strlit("VIR_UUID_BUFLEN");
        reveal_strlit("VIR_UUID_STRING_BUFLEN");
        assert("VIR_UUID_BUFLEN"@.len() == 15);
        assert("VIR_UUID_STRING_BUFLEN"@.len() == 22);
        assert("VIR_UUID_BUFLEN"@ != "VIR_UUID_STRING_BUFLEN"@);
    }
    if str_eq(name, "VIR_UUID_BUFLEN") {
        Some(16)
    } else if str_eq(name, "VIR_UUID_STRING_BUFLEN") {
        Some(37)
    } else {
        None
    }
}

/// A byte, lowercased when it is an ASCII capital.
pub open spec fn ascii_lower_byte(b: u8) -> u8 {
    if 65 <= b <= 90 {
        (b + 32) as u8
    } else {
        b
    }
}

/// Lowercase a string's ASCII capitals; a string holding bytes beyond
/// ASCII is returned unchanged.
pub fn ascii_lower(name: &str) -> (r: String)
    ensures
        (forall|i: int| 0 <= i < name.spec_bytes().len() ==> name.spec_bytes()[i] < 128) ==> r@
            == chars_of_ascii(name.spec_bytes().map_values(|b: u8| ascii_lower_byte(b))),
{
    let bytes: &[u8] = name.as_bytes();
    let mut out: Vec<u8> = Vec::new();
    let mut i: usize = 0;
    while i < bytes.len()
        invariant
            i <= bytes@.len(),
            bytes@ == name.spec_bytes(),
            forall|k: int| 0 <= k < i ==> bytes@[k] < 128,
            out@ == bytes@.subrange(0, i as int).map_values(|b: u8| ascii_lower_byte(b)),
            forall|k: int| 0 <= k < out@.len() ==> out@[k] < 128,
        decreases bytes@.len() - i,
    {
        let b = bytes[i];
        if b >= 128 {
            return name.to_owned();
        }
        let low: u8 = if 65 <= b && b <= 90 {
            b + 32
        } else {
            b
        };
        out.push(low);
        proof {
            assert(out@ =~= bytes@.subrange(0, i + 1).map_values(|b: u8| ascii_lower_byte(b)));
        }
        i = i + 1;
    }
    proof {
        assert(bytes@.subrange(0, bytes@.len() as int) =~= bytes@);
    }
    ascii_to_string(out)
}

/// The lexical stripper's state between two bytes of input.
#[derive(Debug, Clone, Copy, PartialEq, Eq, Structural)]
pub enum StripState {
    /// Ordinary text, at the start of a line.
    LineStart,
    /// Ordinary text, within a line.
    Mid,
    /// A slash was read; a comment may be starting.
    Slash,
    /// Inside a block comment.
    Block,
    /// Inside a block comment, just after an asterisk.
    BlockStar,
    /// Inside a line comment.
    LineComment,
    /// Inside a preprocessor or passthrough line.
    Directive,
}

/// One step of the lexical stripper: the state after reading byte `b`,
/// and the bytes it emits. Comments vanish — a closed block comment
/// leaves one space — and a directive line leaves only its newline;
/// every newline of the input survives, including those inside block
/// comments, so line numbers stay right; everything else passes
/// through.
pub open spec fn strip_step(st: StripState, b: u8) -> (StripState, Seq<u8>) {
    match st {
        StripState::LineStart | StripState::Mid => {
            if b == 47 {
                (StripState::Slash, Seq::<u8>::empty())
            } else if b == 35 {
                (StripState::Directive, Seq::<u8>::empty())
            } else if b == 37 && st == StripState::LineStart {
                (StripState::Directive, Seq::<u8>::empty())
            } else if b == 10 {
                (StripState::LineStart, seq![10u8])
            } else if is_space(b) {
                (st, seq![b])
            } else {
                (StripState::Mid, seq![b])
            }
        },
        StripState::Slash => {
            if b == 42 {
                (StripState::Block, Seq::<u8>::empty())
            } else if b == 47 {
                (StripState::LineComment, Seq::<u8>::empty())
            } else if b == 35 {
                (StripState::Directive, seq![47u8])
            } else if b == 10 {
                (StripState::LineStart, seq![47u8, 10u8])
            } else {
                (StripState::Mid, seq![47u8, b])
            }
        },
        StripState::Block => {
            if b == 42 {
                (StripState::BlockStar, Seq::<u8>::empty())
            } else if b == 10 {
                (StripState::Block, seq![10u8])
            } else {
                (StripState::Block, Seq::<u8>::empty())
            }
        },
        StripState::BlockStar => {
            if b == 47 {
                (StripState::Mid, seq![32u8])
            } else if b == 42 {
                (StripState::BlockStar, Seq::<u8>::empty())
            } else if b == 10 {
                (StripState::Block, seq![10u8])
            } else {
                (StripState::Block, Seq::<u8>::empty())
            }
        },
        StripState::LineComment => {
            if b == 10 {
                (StripState::LineStart, seq![10u8])
            } else {
                (StripState::LineComment, Seq::<u8>::empty())
            }
        },
        StripState::Directive => {
            if b == 10 {
                (StripState::LineStart, seq![10u8])
            } else {
                (StripState::Directive, Seq::<u8>::empty())
            }
        },
    }
}

/// What the stripper emits at the end of input: a slash that turned
/// out to start no comment; an unfinished comment or directive leaves
/// nothing.
pub open spec fn strip_flush(st: StripState) -> Seq<u8> {
    if st == StripState::Slash {
        seq![47u8]
    } else {
        Seq::<u8>::empty()
    }
}

/// The stripper's output from position `i` in state `st`, appended to
/// `acc`.
pub open spec fn spec_strip_from(s: Seq<u8>, i: int, st: StripState, acc: Seq<u8>) -> Seq<u8>
    decreases s.len() - i when 0 <= i <= s.len()
{
    if i >= s.len() {
        acc + strip_flush(st)
    } else {
        spec_strip_from(s, i + 1, strip_step(st, s[i]).0, acc + strip_step(st, s[i]).1)
    }
}

/// The input with comments, preprocessor lines and passthrough lines
/// removed: the stripper's output over the whole input, starting at a
/// line start with nothing emitted.
pub open spec fn spec_remove_comments(s: Seq<u8>) -> Seq<u8> {
    spec_strip_from(s, 0, StripState::LineStart, Seq::<u8>::empty())
}

/// Remove C-style block and line comments (a closed block comment
/// leaves one space), lines beginning with `#` and lines beginning
/// with `%` at column 0, keeping every newline — also those inside a
/// block comment — so line numbers survive.
pub fn remove_comments(input: &[u8]) -> (r: Vec<u8>)
    ensures
        r@ == spec_remove_comments(input@),
{
    let mut out: Vec<u8> = Vec::new();
    let mut st = StripState::LineStart;
    let mut i: usize = 0;
    while i < input.len()
        invariant
            i <= input@.len(),
            spec_remove_comments(input@) == spec_strip_from(input@, i as int, st, out@),
        decreases input@.len() - i,
    {
        let ghost st0 = st;
        let ghost out0 = out@;
        let b = input[i];
        match st {
            StripState::LineStart | StripState::Mid => {
                if b == 47 {
                    st = StripState::Slash;
                } else if b == 35 {
                    st = StripState::Directive;
                } else if b == 37 && st == StripState::LineStart {
                    st = StripState::Directive;
                } else if b == 10 {
                    out.push(10);
                    st = StripState::LineStart;
                } else if b == 32 || b == 9 || b == 13 {
                    out.push(b);
                } else {
                    out.push(b);
                    st = StripState::Mid;
                }
            },
            StripState::Slash => {
                if b == 42 {
                    st = StripState::Block;
                } else if b == 47 {
                    st = StripState::LineComment;
                } else if b == 35 {
                    out.push(47);
                    st = StripState::Directive;
                } else if b == 10 {
                    out.push(47);
                    out.push(10);
                    st = StripState::LineStart;
                } else {
                    out.push(47);
                    out.push(b);
                    st = StripState::Mid;
                }
            },
            StripState::Block => {
                if b == 42 {
                    st = StripState::BlockStar;
                } else if b == 10 {
                    out.push(10);
                }
            },
            StripState::BlockStar => {
                if b == 47 {
                    out.push(32);
                    st = StripState::Mid;
                } else if b == 42 {
                } else if b == 10 {
                    out.push(10);
                    st = StripState::Block;
                } else {
                    st = StripState::Block;
                }
            },
            StripState::LineComment => {
                if b == 10 {
                    out.push(10);
                    st = StripState::LineStart;
                }
            },
            StripState::Directive => {
                if b == 10 {
                    out.push(10);
                    st = StripState::LineStart;
                }
            },
        }
        proof {
            let step = strip_step(st0, b);
            assert(st == step.0);
            assert(out@ =~= out0 + step.1);
            assert(spec_strip_from(input@, i as int, st0, out0) == spec_strip_from(
                input@,
                i + 1,
                st,
                out@,
            ));
        }
        i = i + 1;
    }
    if st == StripState::Slash {
        out.push(47);
    }
    proof {
        assert(out@ =~= spec_remove_comments(input@));
    }
    out
}

/// Whether the literal `t` stands at `pos`.
pub open spec fn spec_tag_at(s: Seq<u8>, pos: int, t: Seq<u8>) -> bool {
    0 <= pos && pos + t.len() <= s.len() && s.subrange(pos, pos + t.len()) == t
}

/// The end of the run of identifier bytes starting at `pos`.
pub open spec fn ident_run_end(s: Seq<u8>, pos: int) -> int
    decreases s.len() - pos when 0 <= pos <= s.len()
{
    if pos >= s.len() || !is_ident_char(s[pos]) {
        pos
    } else {
        ident_run_end(s, pos + 1)
    }
}

/// A run of identifier bytes ends exactly where they stop.
proof fn lemma_ident_run_characterize(s: Seq<u8>, pos: int, r: int)
    requires
        0 <= pos <= r <= s.len(),
        forall|k: int| pos <= k < r ==> is_ident_char(s[k]),
        r < s.len() ==> !is_ident_char(s[r]),
    ensures
        r == ident_run_end(s, pos),
    decreases r - pos,
{
    if pos < r {
        lemma_ident_run_characterize(s, pos + 1, r);
    }
}

/// Where the identifier starting at `pos` ends, or `-1` where none
/// can start there.
pub open spec fn spec_ident_end(s: Seq<u8>, pos: int) -> int {
    if 0 <= pos < s.len() && is_ident_start(s[pos]) {
        ident_run_end(s, pos + 1)
    } else {
        -1
    }
}

/// The characters `id` are exactly the identifier read at `pos`,
/// ending at `end`.
pub open spec fn spec_identifier_at(s: Seq<u8>, pos: int, id: Seq<char>, end: int) -> bool {
    end == spec_ident_end(s, pos) && end >= 0 && id == chars_of_ascii(s.subrange(pos, end))
}

/// Where parsing one-or-more whitespace from `pos` ends, or `-1`
/// where none stands there.
pub open spec fn spec_ms1_end(s: Seq<u8>, pos: int) -> int {
    if 0 <= pos < s.len() && is_space(s[pos]) {
        spec_skip_ws(s, pos + 1)
    } else {
        -1
    }
}

/// Where parsing whitespace, the byte `c` and trailing whitespace
/// from `pos` ends, or `-1` where `c` does not stand there.
pub open spec fn spec_ws_byte_end(s: Seq<u8>, pos: int, c: u8) -> int {
    let q = spec_skip_ws(s, pos);
    if q < s.len() && s[q] == c {
        spec_skip_ws(s, q + 1)
    } else {
        -1
    }
}

/// Where parsing whitespace, the literal `t` and trailing whitespace
/// from `pos` ends, or `-1` where `t` does not stand there.
pub open spec fn spec_ws_tag_end(s: Seq<u8>, pos: int, t: Seq<u8>) -> int {
    let q = spec_skip_ws(s, pos);
    if spec_tag_at(s, q, t) {
        spec_skip_ws(s, q + t.len())
    } else {
        -1
    }
}

/// Require at least one whitespace byte, then skip all of it.
fn ms1(s: &[u8], pos: usize) -> (r: Result<usize, ParseError>)
    requires
        pos <= s@.len(),
    ensures
        r matches Ok(p) ==> pos < p <= s@.len(),
        r is Ok <==> spec_ms1_end(s@, pos as int) >= 0,
        r matches Ok(p) ==> p == spec_ms1_end(s@, pos as int),
{
    if pos < s.len() {
        let b = s[pos];
        if b == 32 || b == 9 || b == 10 || b == 13 {
            return Ok(skip_ws(s, pos + 1));
        }
    }
    Err(ParseError { pos, expected: "whitespace" })
}

/// Skip whitespace, require the byte `c`, and skip whitespace after
/// it.
fn ws_byte(s: &[u8], pos: usize, c: u8) -> (r: Result<usize, ParseError>)
    requires
        pos <= s@.len(),
    ensures
        r matches Ok(p) ==> pos < p <= s@.len(),
        r is Ok <==> spec_ws_byte_end(s@, pos as int, c) >= 0,
        r matches Ok(p) ==> p == spec_ws_byte_end(s@, pos as int, c),
{
    let q = skip_ws(s, pos);
    if q < s.len() && s[q] == c {
        Ok(skip_ws(s, q + 1))
    } else {
        Err(ParseError { pos: q, expected: "punctuation" })
    }
}

/// Skip whitespace, require the literal `t`, and skip whitespace after
/// it.
fn ws_tag(s: &[u8], pos: usize, t: &[u8]) -> (r: Result<usize, ParseError>)
    requires
        pos <= s@.len(),
    ensures
        r matches Ok(p) ==> pos <= p <= s@.len(),
        r is Ok <==> spec_ws_tag_end(s@, pos as int, t@) >= 0,
        r matches Ok(p) ==> p == spec_ws_tag_end(s@, pos as int, t@),
{
    let q = skip_ws(s, pos);
    match tag_at(s, q, t) {
        Some(p) => Ok(skip_ws(s, p)),
        None => Err(ParseError { pos: q, expected: "keyword" }),
    }
}

/// The constant definition `c` read at `pos`, ending at `end`:
/// `const`, whitespace, the constant's name, `=`, its value, `;`.
pub open spec fn spec_const_def_at(s: Seq<u8>, pos: int, c: Constant, end: int) -> bool {
    let p1 = spec_tag_end(s, pos, "const".spec_bytes());
    let p2 = if p1 >= 0 {
        spec_ms1_end(s, p1)
    } else {
        -1
    };
    let p3 = if p2 >= 0 {
        spec_ident_end(s, p2)
    } else {
        -1
    };
    let p4 = if p3 >= 0 {
        spec_ws_byte_end(s, p3, 61)
    } else {
        -1
    };
    &&& p4 >= 0
    &&& c.name@ == chars_of_ascii(s.subrange(p2, p3))
    &&& exists|e: int|
        #![trigger spec_skip_ws(s, e)]
        (spec_const_value_at(s, p4, c.value, e) && end == spec_ws_byte_end(s, e, 59) && end >= 0)
}

/// A constant definition can be read at `pos`: `const`, whitespace, a
/// name, `=`, a value, `;`.
pub open spec fn spec_const_def_ok(s: Seq<u8>, pos: int) -> bool {
    let p1 = spec_tag_end(s, pos, "const".spec_bytes());
    let p2 = if p1 >= 0 {
        spec_ms1_end(s, p1)
    } else {
        -1
    };
    let p3 = if p2 >= 0 {
        spec_ident_end(s, p2)
    } else {
        -1
    };
    let p4 = if p3 >= 0 {
        spec_ws_byte_end(s, p3, 61)
    } else {
        -1
    };
    &&& p4 >= 0
    &&& spec_const_value_ok(s, p4)
    &&& spec_ws_byte_end(s, spec_const_value_end(s, p4), 59) >= 0
}

/// Where the constant definition read at `pos` ends.
pub open spec fn spec_const_def_end(s: Seq<u8>, pos: int) -> int {
    let p1 = spec_tag_end(s, pos, "const".spec_bytes());
    let p2 = spec_ms1_end(s, p1);
    let p3 = spec_ident_end(s, p2);
    let p4 = spec_ws_byte_end(s, p3, 61);
    spec_ws_byte_end(s, spec_const_value_end(s, p4), 59)
}

/// A constant definition: `const NAME = VALUE;`.
pub fn const_def(s: &[u8], pos: usize) -> (r: Result<(Constant, usize), ParseError>)
    requires
        pos <= s@.len(),
    ensures
        r matches Ok((c, end)) ==> pos < end <= s@.len(),
        r matches Ok((c, end)) ==> spec_const_def_at(s@, pos as int, c, end as int),
        r is Ok <==> spec_const_def_ok(s@, pos as int),
        r matches Ok((c, end)) ==> end == spec_const_def_end(s@, pos as int),
{
    let p1 = match tag_at(s, pos, "const".as_bytes()) {
        Some(p) => p,
        None => {
            return Err(ParseError { pos, expected: "const" });
        },
    };
    let p2 = match ms1(s, p1) {
        Ok(p) => p,
        Err(e) => {
            return Err(e);
        },
    };
    let (name, p3) = match identifier(s, p2) {
        Ok(v) => v,
        Err(e) => {
            return Err(e);
        },
    };
    let p4 = match ws_byte(s, p3, 61) {
        Ok(p) => p,
        Err(e) => {
            return Err(e);
        },
    };
    let (value, p5) = match const_value(s, p4) {
        Ok(v) => v,
        Err(e) => {
            return Err(e);
        },
    };
    let p6 = match ws_byte(s, p5, 59) {
        Ok(p) => p,
        Err(e) => {
            return Err(e);
        },
    };
    let c = Constant { name, value };
    proof {
        lemma_ident_run_characterize(s@, p2 + 1, p3 as int);
        assert(spec_const_value_at(s@, p4 as int, c.value, p5 as int));
        assert(spec_const_def_at(s@, pos as int, c, p6 as int));
    }
    Ok((c, p6))
}

/// Where the literal `t` read at `pos` ends, or `-1` where it does
/// not stand there.
pub open spec fn spec_tag_end(s: Seq<u8>, pos: int, t: Seq<u8>) -> int {
    if spec_tag_at(s, pos, t) {
        pos + t.len()
    } else {
        -1
    }
}

/// After `unsigned` and whitespace at `pos`: where the second keyword
/// would start, or `-1`.
pub open spec fn spec_unsigned_second(s: Seq<u8>, pos: int) -> int {
    if spec_tag_at(s, pos, "unsigned".spec_bytes()) {
        spec_ms1_end(s, pos + "unsigned".spec_bytes().len())
    } else {
        -1
    }
}

/// What follows the `string` keyword ending at `p1`: a `<N>` bound
/// read as an integer, a bare `<>`, or nothing — and the type and end
/// position each yields.
pub open spec fn spec_string_rest(s: Seq<u8>, p1: int, t: Type, end: int) -> bool {
    ||| (exists|n: i64, e: int|
        #![trigger spec_integer_at(s, spec_skip_ws(s, p1 + 1), n, e)]
        {
            &&& 0 <= p1 < s.len() && s[p1] == 60
            &&& spec_integer_at(s, spec_skip_ws(s, p1 + 1), n, e)
            &&& spec_skip_ws(s, e) < s.len() && s[spec_skip_ws(s, e)] == 62
            &&& t == Type::String { max_len: Some(n as u32) }
            &&& end == spec_skip_ws(s, e) + 1
        })
    ||| ({
        let q = spec_skip_ws(s, p1 + 1);
        &&& 0 <= p1 < s.len() && s[p1] == 60
        &&& q < s.len() && s[q] == 62
        &&& t == Type::String { max_len: None }
        &&& end == q + 1
    })
    ||| (t == Type::String { max_len: None } && end == p1)
}

/// Where the base type before a `*` ends, or `-1`: the first matching
/// alternative among the unsigned pairs, the primitive keywords and a
/// bare identifier.
pub open spec fn spec_optional_base_end(s: Seq<u8>, pos: int) -> int {
    let u2 = spec_unsigned_second(s, pos);
    if u2 >= 0 && spec_tag_at(s, u2, "hyper".spec_bytes()) {
        u2 + "hyper".spec_bytes().len()
    } else if u2 >= 0 && spec_tag_at(s, u2, "int".spec_bytes()) {
        u2 + "int".spec_bytes().len()
    } else if spec_tag_at(s, pos, "hyper".spec_bytes()) {
        pos + "hyper".spec_bytes().len()
    } else if spec_tag_at(s, pos, "int".spec_bytes()) {
        pos + "int".spec_bytes().len()
    } else if spec_tag_at(s, pos, "float".spec_bytes()) {
        pos + "float".spec_bytes().len()
    } else if spec_tag_at(s, pos, "double".spec_bytes()) {
        pos + "double".spec_bytes().len()
    } else if spec_tag_at(s, pos, "bool".spec_bytes()) {
        pos + "bool".spec_bytes().len()
    } else {
        spec_ident_end(s, pos)
    }
}

/// The base type read before a `*`, matched in the same order as
/// [`spec_optional_base_end`].
pub open spec fn spec_optional_base_at(s: Seq<u8>, pos: int, t: Type, end: int) -> bool {
    let u2 = spec_unsigned_second(s, pos);
    end == spec_optional_base_end(s, pos) && if u2 >= 0 && spec_tag_at(
        s,
        u2,
        "hyper".spec_bytes(),
    ) {
        t == Type::UHyper
    } else if u2 >= 0 && spec_tag_at(s, u2, "int".spec_bytes()) {
        t == Type::UInt
    } else if spec_tag_at(s, pos, "hyper".spec_bytes()) {
        t == Type::Hyper
    } else if spec_tag_at(s, pos, "int".spec_bytes()) {
        t == Type::Int
    } else if spec_tag_at(s, pos, "float".spec_bytes()) {
        t == Type::Float
    } else if spec_tag_at(s, pos, "double".spec_bytes()) {
        t == Type::Double
    } else if spec_tag_at(s, pos, "bool".spec_bytes()) {
        t == Type::Bool
    } else {
        (t matches Type::Named(nm) && spec_identifier_at(s, pos, nm@, end))
    }
}

/// Whether an optional type — a base type, then `*` — stands at
/// `pos`.
pub open spec fn spec_optional_ok(s: Seq<u8>, pos: int) -> bool {
    let be = spec_optional_base_end(s, pos);
    be >= 0 && spec_ws_byte_end(s, be, 42) >= 0
}

/// The optional type read at `pos`: the base type wrapped in
/// `Optional`, ending after the `*` and its trailing whitespace.
pub open spec fn spec_optional_at(s: Seq<u8>, pos: int, t: Type, end: int) -> bool {
    let be = spec_optional_base_end(s, pos);
    &&& (t matches Type::Optional(inner) && spec_optional_base_at(s, pos, *inner, be))
    &&& end == spec_ws_byte_end(s, be, 42)
}

/// Where the `string` type read ending its keyword at `p1` ends: a
/// fitting `<N>` bound, a bare `<>`, or the keyword alone.
pub open spec fn spec_string_rest_end(s: Seq<u8>, p1: int) -> int {
    if 0 <= p1 < s.len() && s[p1] == 60 {
        let q = spec_skip_ws(s, p1 + 1);
        if spec_integer_ok(s, q) {
            let q2 = spec_skip_ws(s, spec_integer_end(s, q));
            if q2 < s.len() && s[q2] == 62 {
                q2 + 1
            } else {
                p1
            }
        } else {
            if q < s.len() && s[q] == 62 {
                q + 1
            } else {
                p1
            }
        }
    } else {
        p1
    }
}

/// Where the type read at `pos` ends, or `-1` where none stands
/// there: the same first-match order as [`spec_type_at`].
pub open spec fn spec_type_end(s: Seq<u8>, pos: int) -> int {
    let u2 = spec_unsigned_second(s, pos);
    if spec_tag_at(s, pos, "void".spec_bytes()) {
        pos + "void".spec_bytes().len()
    } else if u2 >= 0 && spec_tag_at(s, u2, "hyper".spec_bytes()) {
        u2 + "hyper".spec_bytes().len()
    } else if u2 >= 0 && spec_tag_at(s, u2, "int".spec_bytes()) {
        u2 + "int".spec_bytes().len()
    } else if u2 >= 0 && spec_tag_at(s, u2, "char".spec_bytes()) {
        u2 + "char".spec_bytes().len()
    } else if u2 >= 0 && spec_tag_at(s, u2, "short".spec_bytes()) {
        u2 + "short".spec_bytes().len()
    } else if spec_tag_at(s, pos, "char".spec_bytes()) {
        pos + "char".spec_bytes().len()
    } else if spec_tag_at(s, pos, "short".spec_bytes()) {
        pos + "short".spec_bytes().len()
    } else if spec_tag_at(s, pos, "hyper".spec_bytes()) {
        pos + "hyper".spec_bytes().len()
    } else if spec_tag_at(s, pos, "int".spec_bytes()) {
        pos + "int".spec_bytes().len()
    } else if spec_tag_at(s, pos, "float".spec_bytes()) {
        pos + "float".spec_bytes().len()
    } else if spec_tag_at(s, pos, "double".spec_bytes()) {
        pos + "double".spec_bytes().len()
    } else if spec_tag_at(s, pos, "bool".spec_bytes()) {
        pos + "bool".spec_bytes().len()
    } else if spec_tag_at(s, pos, "string".spec_bytes()) {
        spec_string_rest_end(s, pos + "string".spec_bytes().len())
    } else if spec_tag_at(s, pos, "opaque".spec_bytes()) {
        pos + "opaque".spec_bytes().len()
    } else if spec_optional_ok(s, pos) {
        spec_ws_byte_end(s, spec_optional_base_end(s, pos), 42)
    } else {
        spec_ident_end(s, pos)
    }
}

/// An array suffix can be applied at `pos`: no suffix at all, a
/// well-formed `[N]`, or a well-formed `<N?>`.
pub open spec fn spec_array_suffix_ok(s: Seq<u8>, pos: int) -> bool {
    let q = spec_skip_ws(s, pos);
    if q >= s.len() || (s[q] != 91 && s[q] != 60) {
        true
    } else if s[q] == 91 {
        let a = spec_skip_ws(s, q + 1);
        &&& spec_const_value_ok(s, a)
        &&& ({
            let c = spec_skip_ws(s, spec_const_value_end(s, a));
            c < s.len() && s[c] == 93
        })
    } else {
        let a = spec_skip_ws(s, q + 1);
        if spec_const_value_ok(s, a) {
            let b = spec_skip_ws(s, spec_const_value_end(s, a));
            b < s.len() && s[b] == 62
        } else {
            a < s.len() && s[a] == 62
        }
    }
}

/// Where the array suffix applied at `pos` ends.
pub open spec fn spec_array_suffix_end(s: Seq<u8>, pos: int) -> int {
    let q = spec_skip_ws(s, pos);
    if q >= s.len() || (s[q] != 91 && s[q] != 60) {
        pos
    } else if s[q] == 91 {
        spec_skip_ws(s, spec_const_value_end(s, spec_skip_ws(s, q + 1))) + 1
    } else {
        let a = spec_skip_ws(s, q + 1);
        if spec_const_value_ok(s, a) {
            spec_skip_ws(s, spec_const_value_end(s, a)) + 1
        } else {
            a + 1
        }
    }
}

/// A field can be read at `pos`: a type, whitespace, a name, a
/// well-formed suffix, and a semicolon.
pub open spec fn spec_field_def_ok(s: Seq<u8>, pos: int) -> bool {
    let p1 = spec_type_end(s, pos);
    let p2 = if p1 >= 0 {
        spec_ms1_end(s, p1)
    } else {
        -1
    };
    let p3 = if p2 >= 0 {
        spec_ident_end(s, p2)
    } else {
        -1
    };
    &&& p3 >= 0
    &&& spec_array_suffix_ok(s, p3)
    &&& spec_ws_byte_end(s, spec_array_suffix_end(s, p3), 59) >= 0
}

/// Where the field read at `pos` ends.
pub open spec fn spec_field_def_end(s: Seq<u8>, pos: int) -> int {
    let p3 = spec_ident_end(s, spec_ms1_end(s, spec_type_end(s, pos)));
    spec_ws_byte_end(s, spec_array_suffix_end(s, p3), 59)
}

/// The type read at `pos` and where it ends: the alternatives of the
/// type grammar, tried in the parser's fixed order — `void`, the
/// unsigned pairs, the narrow and wide integer keywords, the float
/// keywords, `bool`, `string` with its optional bound, `opaque`, a
/// base type with `*`, and last a bare named type.
pub open spec fn spec_type_at(s: Seq<u8>, pos: int, t: Type, end: int) -> bool {
    let u2 = spec_unsigned_second(s, pos);
    if spec_tag_at(s, pos, "void".spec_bytes()) {
        t == Type::Void && end == pos + "void".spec_bytes().len()
    } else if u2 >= 0 && spec_tag_at(s, u2, "hyper".spec_bytes()) {
        t == Type::UHyper && end == u2 + "hyper".spec_bytes().len()
    } else if u2 >= 0 && spec_tag_at(s, u2, "int".spec_bytes()) {
        t == Type::UInt && end == u2 + "int".spec_bytes().len()
    } else if u2 >= 0 && spec_tag_at(s, u2, "char".spec_bytes()) {
        (t matches Type::Named(nm) && nm@ == "u8"@) && end == u2 + "char".spec_bytes().len()
    } else if u2 >= 0 && spec_tag_at(s, u2, "short".spec_bytes()) {
        (t matches Type::Named(nm) && nm@ == "u16"@) && end == u2 + "short".spec_bytes().len()
    } else if spec_tag_at(s, pos, "char".spec_bytes()) {
        (t matches Type::Named(nm) && nm@ == "i8"@) && end == pos + "char".spec_bytes().len()
    } else if spec_tag_at(s, pos, "short".spec_bytes()) {
        (t matches Type::Named(nm) && nm@ == "i16"@) && end == pos + "short".spec_bytes().len()
    } else if spec_tag_at(s, pos, "hyper".spec_bytes()) {
        t == Type::Hyper && end == pos + "hyper".spec_bytes().len()
    } else if spec_tag_at(s, pos, "int".spec_bytes()) {
        t == Type::Int && end == pos + "int".spec_bytes().len()
    } else if spec_tag_at(s, pos, "float".spec_bytes()) {
        t == Type::Float && end == pos + "float".spec_bytes().len()
    } else if spec_tag_at(s, pos, "double".spec_bytes()) {
        t == Type::Double && end == pos + "double".spec_bytes().len()
    } else if spec_tag_at(s, pos, "bool".spec_bytes()) {
        t == Type::Bool && end == pos + "bool".spec_bytes().len()
    } else if spec_tag_at(s, pos, "string".spec_bytes()) {
        spec_string_rest(s, pos + "string".spec_bytes().len(), t, end)
    } else if spec_tag_at(s, pos, "opaque".spec_bytes()) {
        t == Type::Opaque { len: LengthSpec::Variable { max: None } } && end == pos
            + "opaque".spec_bytes().len()
    } else if spec_optional_ok(s, pos) {
        spec_optional_at(s, pos, t, end)
    } else {
        (t matches Type::Named(nm) && spec_identifier_at(s, pos, nm@, end))
    }
}

/// A base type as it may stand before a `*`: the primitive keywords or
/// a named type.
fn optional_base(s: &[u8], pos: usize) -> (r: Result<(Type, usize), ParseError>)
    requires
        pos <= s@.len(),
    ensures
        r matches Ok((t, end)) ==> pos <= end <= s@.len(),
        r is Ok <==> spec_optional_base_end(s@, pos as int) >= 0,
        r matches Ok((t, end)) ==> spec_optional_base_at(s@, pos as int, t, end as int),
{
    proof {
        lemma_keyword_heads();
    }
    if let Some(p1) = tag_at(s, pos, "unsigned".as_bytes()) {
        if let Ok(p2) = ms1(s, p1) {
            if let Some(p3) = tag_at(s, p2, "hyper".as_bytes()) {
                return Ok((Type::UHyper, p3));
            }
            if let Some(p3) = tag_at(s, p2, "int".as_bytes()) {
                return Ok((Type::UInt, p3));
            }
        }
    }
    if let Some(p1) = tag_at(s, pos, "hyper".as_bytes()) {
        proof {
            lemma_tag_head(s@, pos as int, "hyper".spec_bytes());
        }
        return Ok((Type::Hyper, p1));
    }
    if let Some(p1) = tag_at(s, pos, "int".as_bytes()) {
        proof {
            lemma_tag_head(s@, pos as int, "int".spec_bytes());
        }
        return Ok((Type::Int, p1));
    }
    if let Some(p1) = tag_at(s, pos, "float".as_bytes()) {
        proof {
            lemma_tag_head(s@, pos as int, "float".spec_bytes());
        }
        return Ok((Type::Float, p1));
    }
    if let Some(p1) = tag_at(s, pos, "double".as_bytes()) {
        proof {
            lemma_tag_head(s@, pos as int, "double".spec_bytes());
        }
        return Ok((Type::Double, p1));
    }
    if let Some(p1) = tag_at(s, pos, "bool".as_bytes()) {
        proof {
            lemma_tag_head(s@, pos as int, "bool".spec_bytes());
        }
        return Ok((Type::Bool, p1));
    }
    match identifier(s, pos) {
        Ok((id, p1)) => Ok((Type::Named(id), p1)),
        Err(e) => Err(e),
    }
}

/// An optional type: a base type followed by `*`.
fn optional_type(s: &[u8], pos: usize) -> (r: Result<(Type, usize), ParseError>)
    requires
        pos <= s@.len(),
    ensures
        r matches Ok((t, end)) ==> pos <= end <= s@.len(),
        r is Ok <==> spec_optional_ok(s@, pos as int),
        r matches Ok((t, end)) ==> spec_optional_at(s@, pos as int, t, end as int),
{
    let (base, p1) = match optional_base(s, pos) {
        Ok(v) => v,
        Err(e) => {
            return Err(e);
        },
    };
    match ws_byte(s, p1, 42) {
        Ok(p2) => Ok((Type::Optional(Box::new(base)), p2)),
        Err(e) => Err(e),
    }
}

/// A string type: `string`, with an optional `<N>` bound directly
/// after it.
fn string_type(s: &[u8], pos: usize) -> (r: Result<(Type, usize), ParseError>)
    requires
        pos <= s@.len(),
    ensures
        r matches Ok((t, end)) ==> pos <= end <= s@.len(),
        r is Ok <==> spec_tag_at(s@, pos as int, "string".spec_bytes()),
        r matches Ok((t, end)) ==> spec_string_rest(
            s@,
            pos + "string".spec_bytes().len(),
            t,
            end as int,
        ),
        r matches Ok((t, end)) ==> end == spec_string_rest_end(
            s@,
            pos + "string".spec_bytes().len(),
        ),
{
    let p1 = match tag_at(s, pos, "string".as_bytes()) {
        Some(p) => p,
        None => {
            return Err(ParseError { pos, expected: "string" });
        },
    };
    if p1 < s.len() && s[p1] == 60 {
        let q = skip_ws(s, p1 + 1);
        match integer(s, q) {
            Ok((n, e)) => {
                let q2 = skip_ws(s, e);
                if q2 < s.len() && s[q2] == 62 {
                    let t = Type::String { max_len: Some(#[verifier::truncate] (n as u32)) };
                    proof {
                        assert(spec_string_rest(s@, p1 as int, t, (q2 + 1) as int));
                    }
                    return Ok((t, q2 + 1));
                }
            },
            Err(_) => {
                if q < s.len() && s[q] == 62 {
                    return Ok((Type::String { max_len: None }, q + 1));
                }
            },
        }
    }
    Ok((Type::String { max_len: None }, p1))
}

/// An opaque type: the keyword alone; its length comes from the array
/// suffix on the declarator.
fn opaque_type(s: &[u8], pos: usize) -> (r: Result<(Type, usize), ParseError>)
    requires
        pos <= s@.len(),
    ensures
        r matches Ok((t, end)) ==> pos <= end <= s@.len(),
        r is Ok <==> spec_tag_at(s@, pos as int, "opaque".spec_bytes()),
        r matches Ok((t, end)) ==> t == (Type::Opaque { len: LengthSpec::Variable { max: None } })
            && end == pos + "opaque".spec_bytes().len(),
{
    match tag_at(s, pos, "opaque".as_bytes()) {
        Some(p1) => Ok((Type::Opaque { len: LengthSpec::Variable { max: None } }, p1)),
        None => Err(ParseError { pos, expected: "opaque" }),
    }
}

/// Every keyword of the type grammar begins with a letter.
proof fn lemma_keyword_heads()
    ensures
        "void".spec_bytes().len() > 0 && is_ident_start("void".spec_bytes()[0]),
        "unsigned".spec_bytes().len() > 0 && is_ident_start("unsigned".spec_bytes()[0]),
        "char".spec_bytes().len() > 0 && is_ident_start("char".spec_bytes()[0]),
        "short".spec_bytes().len() > 0 && is_ident_start("short".spec_bytes()[0]),
        "hyper".spec_bytes().len() > 0 && is_ident_start("hyper".spec_bytes()[0]),
        "int".spec_bytes().len() > 0 && is_ident_start("int".spec_bytes()[0]),
        "float".spec_bytes().len() > 0 && is_ident_start("float".spec_bytes()[0]),
        "double".spec_bytes().len() > 0 && is_ident_start("double".spec_bytes()[0]),
        "bool".spec_bytes().len() > 0 && is_ident_start("bool".spec_bytes()[0]),
        "string".spec_bytes().len() > 0 && is_ident_start("string".spec_bytes()[0]),
        "opaque".spec_bytes().len() > 0 && is_ident_start("opaque".spec_bytes()[0]),
{
    reveal_strlit("void");
    reveal_strlit("unsigned");
    reveal_strlit("char");
    reveal_strlit("short");
    reveal_strlit("hyper");
    reveal_strlit("int");
    reveal_strlit("float");
    reveal_strlit("double");
    reveal_strlit("bool");
    reveal_strlit("string");
    reveal_strlit("opaque");
    crate::codec::lemma_ascii_encode_bytes_of_str("void");
    crate::codec::lemma_ascii_encode_bytes_of_str("unsigned");
    crate::codec::lemma_ascii_encode_bytes_of_str("char");
    crate::codec::lemma_ascii_encode_bytes_of_str("short");
    crate::codec::lemma_ascii_encode_bytes_of_str("hyper");
    crate::codec::lemma_ascii_encode_bytes_of_str("int");
    crate::codec::lemma_ascii_encode_bytes_of_str("float");
    crate::codec::lemma_ascii_encode_bytes_of_str("double");
    crate::codec::lemma_ascii_encode_bytes_of_str("bool");
    crate::codec::lemma_ascii_encode_bytes_of_str("string");
    crate::codec::lemma_ascii_encode_bytes_of_str("opaque");
}

/// A keyword beginning with a letter can only stand where an
/// identifier could start.
proof fn lemma_tag_head(s: Seq<u8>, pos: int, t: Seq<u8>)
    requires
        spec_tag_at(s, pos, t),
        t.len() > 0,
        is_ident_start(t[0]),
    ensures
        0 <= pos < s.len() && is_ident_start(s[pos]),
{
    assert(s.subrange(pos, pos + t.len())[0] == s[pos]);
}

/// A base type of the optional-type grammar can only stand where an
/// identifier could start.
proof fn lemma_optional_base_head(s: Seq<u8>, pos: int)
    requires
        spec_optional_base_end(s, pos) >= 0,
    ensures
        0 <= pos < s.len() && is_ident_start(s[pos]),
{
    lemma_keyword_heads();
    let u2 = spec_unsigned_second(s, pos);
    if u2 >= 0 {
        lemma_tag_head(s, pos, "unsigned".spec_bytes());
    } else if spec_tag_at(s, pos, "hyper".spec_bytes()) {
        lemma_tag_head(s, pos, "hyper".spec_bytes());
    } else if spec_tag_at(s, pos, "int".spec_bytes()) {
        lemma_tag_head(s, pos, "int".spec_bytes());
    } else if spec_tag_at(s, pos, "float".spec_bytes()) {
        lemma_tag_head(s, pos, "float".spec_bytes());
    } else if spec_tag_at(s, pos, "double".spec_bytes()) {
        lemma_tag_head(s, pos, "double".spec_bytes());
    } else if spec_tag_at(s, pos, "bool".spec_bytes()) {
        lemma_tag_head(s, pos, "bool".spec_bytes());
    } else {
        assert(spec_ident_end(s, pos) >= 0);
    }
}

/// Where no identifier can start, no type can be read.
proof fn lemma_type_end_none(s: Seq<u8>, pos: int)
    requires
        0 <= pos <= s.len(),
        !(pos < s.len() && is_ident_start(s[pos])),
    ensures
        spec_type_end(s, pos) == -1,
{
    lemma_keyword_heads();
    if spec_tag_at(s, pos, "void".spec_bytes()) {
        lemma_tag_head(s, pos, "void".spec_bytes());
    }
    if spec_tag_at(s, pos, "unsigned".spec_bytes()) {
        lemma_tag_head(s, pos, "unsigned".spec_bytes());
    }
    if spec_tag_at(s, pos, "char".spec_bytes()) {
        lemma_tag_head(s, pos, "char".spec_bytes());
    }
    if spec_tag_at(s, pos, "short".spec_bytes()) {
        lemma_tag_head(s, pos, "short".spec_bytes());
    }
    if spec_tag_at(s, pos, "hyper".spec_bytes()) {
        lemma_tag_head(s, pos, "hyper".spec_bytes());
    }
    if spec_tag_at(s, pos, "int".spec_bytes()) {
        lemma_tag_head(s, pos, "int".spec_bytes());
    }
    if spec_tag_at(s, pos, "float".spec_bytes()) {
        lemma_tag_head(s, pos, "float".spec_bytes());
    }
    if spec_tag_at(s, pos, "double".spec_bytes()) {
        lemma_tag_head(s, pos, "double".spec_bytes());
    }
    if spec_tag_at(s, pos, "bool".spec_bytes()) {
        lemma_tag_head(s, pos, "bool".spec_bytes());
    }
    if spec_tag_at(s, pos, "string".spec_bytes()) {
        lemma_tag_head(s, pos, "string".spec_bytes());
    }
    if spec_tag_at(s, pos, "opaque".spec_bytes()) {
        lemma_tag_head(s, pos, "opaque".spec_bytes());
    }
    if spec_optional_ok(s, pos) {
        lemma_optional_base_head(s, pos);
    }
}

/// A type as it stands in a field or typedef, tried in fixed order:
/// `void`, the unsigned and signed primitive keywords, `string`,
/// `opaque`, a base type with `*`, and last a bare named type.
pub fn type_spec(s: &[u8], pos: usize) -> (r: Result<(Type, usize), ParseError>)
    requires
        pos <= s@.len(),
    ensures
        r matches Ok((t, end)) ==> pos <= end <= s@.len(),
        r matches Ok((t, end)) ==> spec_type_at(s@, pos as int, t, end as int),
        r is Ok <==> pos < s@.len() && is_ident_start(s@[pos as int]),
        r matches Ok((t, end)) ==> end == spec_type_end(s@, pos as int),
{
    proof {
        lemma_keyword_heads();
    }
    if let Some(p1) = tag_at(s, pos, "void".as_bytes()) {
        proof {
            lemma_tag_head(s@, pos as int, "void".spec_bytes());
        }
        return Ok((Type::Void, p1));
    }
    if let Some(p1) = tag_at(s, pos, "unsigned".as_bytes()) {
        proof {
            lemma_tag_head(s@, pos as int, "unsigned".spec_bytes());
        }
        if let Ok(p2) = ms1(s, p1) {
            if let Some(p3) = tag_at(s, p2, "hyper".as_bytes()) {
                return Ok((Type::UHyper, p3));
            }
            if let Some(p3) = tag_at(s, p2, "int".as_bytes()) {
                return Ok((Type::UInt, p3));
            }
            if let Some(p3) = tag_at(s, p2, "char".as_bytes()) {
                return Ok((Type::Named(String::from_str("u8")), p3));
            }
            if let Some(p3) = tag_at(s, p2, "short".as_bytes()) {
                return Ok((Type::Named(String::from_str("u16")), p3));
            }
        }
    }
    if let Some(p1) = tag_at(s, pos, "char".as_bytes()) {
        proof {
            lemma_tag_head(s@, pos as int, "char".spec_bytes());
        }
        return Ok((Type::Named(String::from_str("i8")), p1));
    }
    if let Some(p1) = tag_at(s, pos, "short".as_bytes()) {
        proof {
            lemma_tag_head(s@, pos as int, "short".spec_bytes());
        }
        return Ok((Type::Named(String::from_str("i16")), p1));
    }
    if let Some(p1) = tag_at(s, pos, "hyper".as_bytes()) {
        proof {
            lemma_tag_head(s@, pos as int, "hyper".spec_bytes());
        }
        return Ok((Type::Hyper, p1));
    }
    if let Some(p1) = tag_at(s, pos, "int".as_bytes()) {
        proof {
            lemma_tag_head(s@, pos as int, "int".spec_bytes());
        }
        return Ok((Type::Int, p1));
    }
    if let Some(p1) = tag_at(s, pos, "float".as_bytes()) {
        proof {
            lemma_tag_head(s@, pos as int, "float".spec_bytes());
        }
        return Ok((Type::Float, p1));
    }
    if let Some(p1) = tag_at(s, pos, "double".as_bytes()) {
        proof {
            lemma_tag_head(s@, pos as int, "double".spec_bytes());
        }
        return Ok((Type::Double, p1));
    }
    if let Some(p1) = tag_at(s, pos, "bool".as_bytes()) {
        proof {
            lemma_tag_head(s@, pos as int, "bool".spec_bytes());
        }
        return Ok((Type::Bool, p1));
    }
    if let Ok(v) = string_type(s, pos) {
        proof {
            lemma_tag_head(s@, pos as int, "string".spec_bytes());
        }
        return Ok(v);
    }
    if let Ok(v) = opaque_type(s, pos) {
        proof {
            lemma_tag_head(s@, pos as int, "opaque".spec_bytes());
        }
        return Ok(v);
    }
    if let Ok(v) = optional_type(s, pos) {
        proof {
            lemma_optional_base_head(s@, pos as int);
        }
        return Ok(v);
    }
    match identifier(s, pos) {
        Ok((id, p1)) => Ok((Type::Named(id), p1)),
        Err(_) => Err(ParseError { pos, expected: "type" }),
    }
}

/// The resolution of an identifier used as an array length: the
/// well-known UUID buffer lengths, or zero for anything else.
pub open spec fn spec_resolved_len(id: Seq<char>) -> u32 {
    if id == "VIR_UUID_BUFLEN"@ {
        16u32
    } else if id == "VIR_UUID_STRING_BUFLEN"@ {
        37u32
    } else {
        0u32
    }
}

/// The type a fixed-length suffix `[N]` makes of a base type: fixed
/// opaque for `opaque`, a fixed array otherwise.
pub open spec fn spec_suffix_fixed(base: Type, t: Type, size: u32) -> bool {
    match base {
        Type::Opaque { .. } => t == Type::Opaque { len: LengthSpec::Fixed(size) },
        _ => (t matches Type::Array { elem, len } && *elem == base && len == LengthSpec::Fixed(
            size,
        )),
    }
}

/// The type a variable-length suffix `<N?>` makes of a base type: a
/// bound for strings and opaque data, a variable-length array
/// otherwise.
pub open spec fn spec_suffix_bounded(base: Type, t: Type, m: Option<u32>) -> bool {
    match base {
        Type::String { .. } => t == Type::String { max_len: m },
        Type::Opaque { .. } => t == Type::Opaque { len: LengthSpec::Variable { max: m } },
        _ => (t matches Type::Array { elem, len } && *elem == base && len
            == LengthSpec::Variable { max: m }),
    }
}

/// The array suffix read at `pos` applied to `base`: no suffix leaves
/// the base and the position unchanged; `[N]` yields the fixed form
/// with `N` the integer read, or a length identifier resolved through
/// the well-known table and zero otherwise; `<N?>` yields the bounded
/// form, with a bound exactly when an integer stands between the
/// brackets.
pub open spec fn spec_array_suffix_at(s: Seq<u8>, pos: int, base: Type, t: Type, end: int) -> bool {
    let q = spec_skip_ws(s, pos);
    if q >= s.len() || (s[q] != 91 && s[q] != 60) {
        t == base && end == pos
    } else if s[q] == 91 {
        exists|cv: ConstValue, e: int|
            #![trigger spec_const_value_at(s, spec_skip_ws(s, spec_skip_ws(s, pos) + 1), cv, e)]
            {
                &&& spec_const_value_at(s, spec_skip_ws(s, spec_skip_ws(s, pos) + 1), cv, e)
                &&& spec_skip_ws(s, e) < s.len() && s[spec_skip_ws(s, e)] == 93
                &&& end == spec_skip_ws(s, e) + 1
                &&& spec_suffix_fixed(
                    base,
                    t,
                    match cv {
                        ConstValue::Int(n) => n as u32,
                        ConstValue::Ident(id) => spec_resolved_len(id@),
                    },
                )
            }
    } else {
        ||| (exists|n: i64, e: int|
            #![trigger spec_integer_at(s, spec_skip_ws(s, spec_skip_ws(s, pos) + 1), n, e)]
            {
                &&& spec_integer_at(s, spec_skip_ws(s, spec_skip_ws(s, pos) + 1), n, e)
                &&& spec_skip_ws(s, e) < s.len() && s[spec_skip_ws(s, e)] == 62
                &&& end == spec_skip_ws(s, e) + 1
                &&& spec_suffix_bounded(base, t, Some(n as u32))
            })
        ||| (exists|id: Seq<char>, e: int|
            #![trigger spec_identifier_at(s, spec_skip_ws(s, spec_skip_ws(s, pos) + 1), id, e)]
            {
                &&& spec_identifier_at(s, spec_skip_ws(s, spec_skip_ws(s, pos) + 1), id, e)
                &&& spec_skip_ws(s, e) < s.len() && s[spec_skip_ws(s, e)] == 62
                &&& end == spec_skip_ws(s, e) + 1
                &&& spec_suffix_bounded(base, t, None)
            })
        ||| ({
            &&& spec_skip_ws(s, spec_skip_ws(s, pos) + 1) < s.len() && s[spec_skip_ws(
                s,
                spec_skip_ws(s, pos) + 1,
            )] == 62
            &&& end == spec_skip_ws(s, spec_skip_ws(s, pos) + 1) + 1
            &&& spec_suffix_bounded(base, t, None)
        })
    }
}

/// Apply an array suffix to a declarator's base type, if one stands at
/// `pos`: `[N]` is a fixed length — fixed opaque for `opaque`, a fixed
/// array otherwise — and `<N?>` is a bound for strings and opaque data
/// but a variable-length array for anything else. A length identifier
/// resolves through the well-known constants or falls back to zero.
pub fn array_suffix(s: &[u8], pos: usize, base_ty: Type) -> (r: Result<
    (Type, usize),
    ParseError,
>)
    requires
        pos <= s@.len(),
    ensures
        r matches Ok((t, end)) ==> pos <= end <= s@.len(),
        r matches Ok((t, end)) ==> spec_array_suffix_at(s@, pos as int, base_ty, t, end as int),
        r is Ok <==> spec_array_suffix_ok(s@, pos as int),
        r matches Ok((t, end)) ==> end == spec_array_suffix_end(s@, pos as int),
{
    let q = skip_ws(s, pos);
    if q < s.len() && s[q] == 91 {
        let a = skip_ws(s, q + 1);
        let (cv, b) = match const_value(s, a) {
            Ok(v) => v,
            Err(e) => {
                return Err(e);
            },
        };
        let c = skip_ws(s, b);
        if !(c < s.len() && s[c] == 93) {
            return Err(ParseError { pos: c, expected: "]" });
        }
        let size: u32 = match &cv {
            ConstValue::Int(n) => #[verifier::truncate] (*n as u32),
            ConstValue::Ident(name) => match resolve_well_known_constant(name.as_str()) {
                Some(v) => v,
                None => 0,
            },
        };
        let t = match base_ty {
            Type::Opaque { .. } => Type::Opaque { len: LengthSpec::Fixed(size) },
            _ => Type::Array { elem: Box::new(base_ty), len: LengthSpec::Fixed(size) },
        };
        proof {
            assert(spec_const_value_at(s@, a as int, cv, b as int));
            assert(spec_array_suffix_at(s@, pos as int, base_ty, t, (c + 1) as int));
        }
        Ok((t, c + 1))
    } else if q < s.len() && s[q] == 60 {
        let a = skip_ws(s, q + 1);
        match const_value(s, a) {
            Ok((cv, e)) => {
                let b = skip_ws(s, e);
                if !(b < s.len() && s[b] == 62) {
                    return Err(ParseError { pos: b, expected: ">" });
                }
                match cv {
                    ConstValue::Int(n) => {
                        let m = Some(#[verifier::truncate] (n as u32));
                        let t = match base_ty {
                            Type::String { .. } => Type::String { max_len: m },
                            Type::Opaque { .. } => Type::Opaque {
                                len: LengthSpec::Variable { max: m },
                            },
                            _ => Type::Array {
                                elem: Box::new(base_ty),
                                len: LengthSpec::Variable { max: m },
                            },
                        };
                        proof {
                            assert(spec_integer_at(s@, a as int, n, e as int));
                            assert(spec_array_suffix_at(
                                s@,
                                pos as int,
                                base_ty,
                                t,
                                (b + 1) as int,
                            ));
                        }
                        Ok((t, b + 1))
                    },
                    ConstValue::Ident(id) => {
                        let t = match base_ty {
                            Type::String { .. } => Type::String { max_len: None },
                            Type::Opaque { .. } => Type::Opaque {
                                len: LengthSpec::Variable { max: None },
                            },
                            _ => Type::Array {
                                elem: Box::new(base_ty),
                                len: LengthSpec::Variable { max: None },
                            },
                        };
                        proof {
                            assert(spec_identifier_at(s@, a as int, id@, e as int));
                            assert(spec_array_suffix_at(
                                s@,
                                pos as int,
                                base_ty,
                                t,
                                (b + 1) as int,
                            ));
                        }
                        Ok((t, b + 1))
                    },
                }
            },
            Err(_) => {
                if !(a < s.len() && s[a] == 62) {
                    return Err(ParseError { pos: a, expected: ">" });
                }
                let t = match base_ty {
                    Type::String { .. } => Type::String { max_len: None },
                    Type::Opaque { .. } => Type::Opaque {
                        len: LengthSpec::Variable { max: None },
                    },
                    _ => Type::Array {
                        elem: Box::new(base_ty),
                        len: LengthSpec::Variable { max: None },
                    },
                };
                proof {
                    assert(spec_array_suffix_at(s@, pos as int, base_ty, t, (a + 1) as int));
                }
                Ok((t, a + 1))
            },
        }
    } else {
        proof {
            assert(spec_array_suffix_at(s@, pos as int, base_ty, base_ty, pos as int));
        }
        Ok((base_ty, pos))
    }
}

/// The field `f` read at `pos`, ending at `end`: a type, whitespace,
/// the field's name, an optional array suffix applied to the type,
/// and a semicolon.
pub open spec fn spec_field_def_at(s: Seq<u8>, pos: int, f: Field, end: int) -> bool {
    exists|t0: Type, p1: int, e: int|
        #![trigger spec_type_at(s, pos, t0, p1), spec_skip_ws(s, e)]
        {
            let p2 = spec_ms1_end(s, p1);
            let p3 = if p2 >= 0 {
                spec_ident_end(s, p2)
            } else {
                -1
            };
            &&& spec_type_at(s, pos, t0, p1)
            &&& p3 >= 0
            &&& f.name@ == chars_of_ascii(s.subrange(p2, p3))
            &&& spec_array_suffix_at(s, p3, t0, f.ty, e)
            &&& end == spec_ws_byte_end(s, e, 59)
            &&& end >= 0
        }
}

/// A field declaration: `TYPE NAME` with an optional array suffix,
/// ended by a semicolon.
pub fn field_def(s: &[u8], pos: usize) -> (r: Result<(Field, usize), ParseError>)
    requires
        pos <= s@.len(),
    ensures
        r matches Ok((f, end)) ==> pos < end <= s@.len(),
        r matches Ok((f, end)) ==> spec_field_def_at(s@, pos as int, f, end as int),
        r is Ok <==> spec_field_def_ok(s@, pos as int),
        r matches Ok((f, end)) ==> end == spec_field_def_end(s@, pos as int),
{
    let ghost ty0: Type;
    let (ty, p1) = match type_spec(s, pos) {
        Ok(v) => v,
        Err(e) => {
            proof {
                lemma_type_end_none(s@, pos as int);
            }
            return Err(e);
        },
    };
    proof {
        ty0 = ty;
    }
    let p2 = match ms1(s, p1) {
        Ok(p) => p,
        Err(e) => {
            return Err(e);
        },
    };
    let (name, p3) = match identifier(s, p2) {
        Ok(v) => v,
        Err(e) => {
            return Err(e);
        },
    };
    let (ty2, p4) = match array_suffix(s, p3, ty) {
        Ok(v) => v,
        Err(e) => {
            return Err(e);
        },
    };
    let p5 = match ws_byte(s, p4, 59) {
        Ok(p) => p,
        Err(e) => {
            return Err(e);
        },
    };
    let f = Field { name, ty: ty2 };
    proof {
        lemma_ident_run_characterize(s@, p2 + 1, p3 as int);
        assert(spec_type_at(s@, pos as int, ty0, p1 as int));
        assert(spec_array_suffix_at(s@, p3 as int, ty0, f.ty, p4 as int));
        assert(spec_field_def_at(s@, pos as int, f, p5 as int));
    }
    Ok((f, p5))
}

/// The fields `fs` read one after another from `from`, ending at
/// `to`.
pub open spec fn spec_fields_seq(s: Seq<u8>, from: int, to: int, fs: Seq<Field>) -> bool
    decreases fs.len(),
{
    if fs.len() == 0 {
        to == from
    } else {
        exists|m: int|
            #![trigger spec_field_def_at(s, m, fs.last(), to)]
            (spec_fields_seq(s, from, m, fs.drop_last()) && spec_field_def_at(
                s,
                m,
                fs.last(),
                to,
            ))
    }
}

/// Where the run of fields readable one after another from `p` ends;
/// the fuel bounds the recursion and exceeds any possible number of
/// fields.
pub open spec fn spec_fields_run_end(s: Seq<u8>, p: int, fuel: nat) -> int
    decreases fuel,
{
    if fuel > 0 && 0 <= p <= s.len() && spec_field_def_ok(s, p) {
        spec_fields_run_end(s, spec_field_def_end(s, p), (fuel - 1) as nat)
    } else {
        p
    }
}

/// A struct definition can be read at `pos`: `struct`, whitespace, a
/// name, `{`, the longest run of fields, `}`, `;`.
pub open spec fn spec_struct_def_ok(s: Seq<u8>, pos: int) -> bool {
    let p1 = spec_tag_end(s, pos, "struct".spec_bytes());
    let p2 = if p1 >= 0 {
        spec_ms1_end(s, p1)
    } else {
        -1
    };
    let p3 = if p2 >= 0 {
        spec_ident_end(s, p2)
    } else {
        -1
    };
    let p = if p3 >= 0 {
        spec_ws_byte_end(s, p3, 123)
    } else {
        -1
    };
    &&& p >= 0
    &&& ({
        let pf = spec_fields_run_end(s, p, (s.len() + 1) as nat);
        spec_ws_byte_end(s, pf, 125) >= 0 && spec_ws_byte_end(
            s,
            spec_ws_byte_end(s, pf, 125),
            59,
        ) >= 0
    })
}

/// The struct definition `sd` read at `pos`, ending at `end`:
/// `struct`, whitespace, the struct's name, `{`, its fields in order,
/// `}`, `;`.
pub open spec fn spec_struct_def_at(s: Seq<u8>, pos: int, sd: StructDef, end: int) -> bool {
    let p1 = spec_tag_end(s, pos, "struct".spec_bytes());
    let p2 = if p1 >= 0 {
        spec_ms1_end(s, p1)
    } else {
        -1
    };
    let p3 = if p2 >= 0 {
        spec_ident_end(s, p2)
    } else {
        -1
    };
    let p = if p3 >= 0 {
        spec_ws_byte_end(s, p3, 123)
    } else {
        -1
    };
    &&& p >= 0
    &&& sd.name@ == chars_of_ascii(s.subrange(p2, p3))
    &&& exists|pf: int|
        #![trigger spec_skip_ws(s, pf)]
        (spec_fields_seq(s, p, pf, sd.fields@) && spec_ws_byte_end(s, pf, 125) >= 0 && end
            == spec_ws_byte_end(s, spec_ws_byte_end(s, pf, 125), 59) && end >= 0)
}

/// Where the struct definition read at `pos` ends.
pub open spec fn spec_struct_def_end(s: Seq<u8>, pos: int) -> int {
    let p1 = spec_tag_end(s, pos, "struct".spec_bytes());
    let p2 = spec_ms1_end(s, p1);
    let p3 = spec_ident_end(s, p2);
    let p = spec_ws_byte_end(s, p3, 123);
    let pf = spec_fields_run_end(s, p, (s.len() + 1) as nat);
    spec_ws_byte_end(s, spec_ws_byte_end(s, pf, 125), 59)
}

/// A struct definition: `struct NAME { fields };`.
pub fn struct_def(s: &[u8], pos: usize) -> (r: Result<(StructDef, usize), ParseError>)
    requires
        pos <= s@.len(),
    ensures
        r matches Ok((v, end)) ==> pos < end <= s@.len(),
        r matches Ok((v, end)) ==> spec_struct_def_at(s@, pos as int, v, end as int),
        r is Ok <==> spec_struct_def_ok(s@, pos as int),
        r matches Ok((v, end)) ==> end == spec_struct_def_end(s@, pos as int),
{
    let p1 = match tag_at(s, pos, "struct".as_bytes()) {
        Some(p) => p,
        None => {
            return Err(ParseError { pos, expected: "struct" });
        },
    };
    let p2 = match ms1(s, p1) {
        Ok(p) => p,
        Err(e) => {
            return Err(e);
        },
    };
    let (name, p3) = match identifier(s, p2) {
        Ok(v) => v,
        Err(e) => {
            return Err(e);
        },
    };
    let mut p = match ws_byte(s, p3, 123) {
        Ok(p) => p,
        Err(e) => {
            return Err(e);
        },
    };
    let ghost p_start = p as int;
    let ghost fuel0 = (s@.len() + 1) as nat;
    let ghost mut f: nat = fuel0;
    let mut fields: Vec<Field> = Vec::new();
    proof {
        assert(fields@ =~= Seq::<Field>::empty());
    }
    loop
        invariant_except_break
            pos < p <= s@.len(),
            p3 < p,
            spec_fields_seq(s@, p_start, p as int, fields@),
            f >= s@.len() - p + 1,
            spec_fields_run_end(s@, p_start, fuel0) == spec_fields_run_end(s@, p as int, f),
        ensures
            pos < p <= s@.len(),
            p3 < p,
            spec_fields_seq(s@, p_start, p as int, fields@),
            spec_fields_run_end(s@, p_start, fuel0) == p as int,
        decreases s@.len() - p,
    {
        let ghost m = p as int;
        let ghost fs0 = fields@;
        match field_def(s, p) {
            Ok((f2, p2)) => {
                fields.push(f2);
                proof {
                    assert(fields@.drop_last() =~= fs0);
                    assert(fields@.last() == f2);
                    assert(spec_field_def_at(s@, m, fields@.last(), p2 as int));
                    assert(spec_fields_seq(s@, p_start, m, fields@.drop_last()));
                    assert(spec_fields_seq(s@, p_start, p2 as int, fields@));
                    assert(spec_fields_run_end(s@, m, f) == spec_fields_run_end(
                        s@,
                        p2 as int,
                        (f - 1) as nat,
                    ));
                    f = (f - 1) as nat;
                }
                p = p2;
            },
            Err(_) => {
                proof {
                    assert(spec_fields_run_end(s@, p as int, f) == p as int);
                }
                break ;
            },
        }
    }
    proof {
        assert(spec_fields_run_end(s@, p_start, fuel0) == p as int);
    }
    let p6 = match ws_byte(s, p, 125) {
        Ok(p2) => p2,
        Err(e) => {
            return Err(e);
        },
    };
    let p7 = match ws_byte(s, p6, 59) {
        Ok(p2) => p2,
        Err(e) => {
            return Err(e);
        },
    };
    let sd = StructDef { name, fields };
    proof {
        lemma_ident_run_characterize(s@, p2 + 1, p3 as int);
        assert(spec_fields_seq(s@, p_start, p as int, sd.fields@));
        assert(spec_struct_def_at(s@, pos as int, sd, p7 as int));
    }
    Ok((sd, p7))
}

/// The enum variant `v` read at `pos`, ending at `end`: its name,
/// with `= VALUE` exactly where the variant carries a value.
pub open spec fn spec_enum_variant_at(s: Seq<u8>, pos: int, v: EnumVariant, end: int) -> bool {
    let p1 = spec_ident_end(s, pos);
    &&& p1 >= 0
    &&& v.name@ == chars_of_ascii(s.subrange(pos, p1))
    &&& ({
        ||| (v.value is Some && spec_skip_ws(s, p1) < s.len() && s[spec_skip_ws(s, p1)] == 61
            && spec_const_value_at(
            s,
            spec_skip_ws(s, spec_skip_ws(s, p1) + 1),
            v.value->0,
            end,
        ))
        ||| (v.value is None && end == p1)
    })
}

/// Where the enum variant read at `pos` ends: after its value where
/// `= VALUE` follows the name, after the name otherwise.
pub open spec fn spec_enum_variant_end(s: Seq<u8>, pos: int) -> int {
    let p1 = spec_ident_end(s, pos);
    let q = spec_skip_ws(s, p1);
    if q < s.len() && s[q] == 61 && spec_const_value_ok(s, spec_skip_ws(s, q + 1)) {
        spec_const_value_end(s, spec_skip_ws(s, q + 1))
    } else {
        p1
    }
}

/// An enum variant: `NAME` with an optional `= VALUE`.
pub fn enum_variant(s: &[u8], pos: usize) -> (r: Result<(EnumVariant, usize), ParseError>)
    requires
        pos <= s@.len(),
    ensures
        r matches Ok((v, end)) ==> pos < end <= s@.len(),
        r matches Ok((v, end)) ==> spec_enum_variant_at(s@, pos as int, v, end as int),
        r is Ok <==> spec_ident_end(s@, pos as int) >= 0,
        r matches Ok((v, end)) ==> end == spec_enum_variant_end(s@, pos as int),
{
    let (name, p1) = match identifier(s, pos) {
        Ok(v) => v,
        Err(e) => {
            return Err(e);
        },
    };
    let q = skip_ws(s, p1);
    if q < s.len() && s[q] == 61 {
        let q2 = skip_ws(s, q + 1);
        match const_value(s, q2) {
            Ok((cv, e)) => {
                let v = EnumVariant { name, value: Some(cv) };
                proof {
                    assert(spec_enum_variant_at(s@, pos as int, v, e as int));
                }
                return Ok((v, e));
            },
            Err(_) => {},
        }
    }
    let v = EnumVariant { name, value: None };
    proof {
        assert(spec_enum_variant_at(s@, pos as int, v, p1 as int));
    }
    Ok((v, p1))
}

/// The variants `vs` read from `start` (each after leading
/// whitespace), separated by commas, ending at `to`.
pub open spec fn spec_variants_seq(s: Seq<u8>, start: int, to: int, vs: Seq<EnumVariant>) -> bool
    decreases vs.len(),
{
    if vs.len() == 0 {
        to == start
    } else if vs.len() == 1 {
        exists|e: int|
            #![trigger spec_skip_ws(s, e)]
            (spec_enum_variant_at(s, spec_skip_ws(s, start), vs[0], e) && to == spec_skip_ws(
                s,
                e,
            ))
    } else {
        exists|m: int, e: int|
            #![trigger spec_enum_variant_at(s, spec_skip_ws(s, m + 1), vs.last(), e)]
            (spec_variants_seq(s, start, m, vs.drop_last()) && 0 <= m < s.len() && s[m] == 44
                && spec_enum_variant_at(s, spec_skip_ws(s, m + 1), vs.last(), e) && to
                == spec_skip_ws(s, e))
    }
}

/// The closing `};` of a definition body: from `x`, the brace and the
/// semicolon with their whitespace, ending at `end`.
pub open spec fn spec_closing_at(s: Seq<u8>, x: int, end: int) -> bool {
    &&& spec_ws_byte_end(s, x, 125) >= 0
    &&& end == spec_ws_byte_end(s, spec_ws_byte_end(s, x, 125), 59)
    &&& end >= 0
}

/// Where the comma-separated run of further variants readable from
/// `p` ends; the fuel bounds the recursion and exceeds any possible
/// number of variants.
pub open spec fn spec_variants_run_end(s: Seq<u8>, p: int, fuel: nat) -> int
    decreases fuel,
{
    if fuel > 0 && 0 <= p < s.len() && s[p] == 44 && spec_ident_end(
        s,
        spec_skip_ws(s, p + 1),
    ) >= 0 {
        spec_variants_run_end(
            s,
            spec_skip_ws(s, spec_enum_variant_end(s, spec_skip_ws(s, p + 1))),
            (fuel - 1) as nat,
        )
    } else {
        p
    }
}

/// An enum definition can be read at `pos`: `enum`, whitespace, a
/// name, `{`, comma-separated variants with an optional trailing
/// comma, `}`, `;`.
pub open spec fn spec_enum_def_ok(s: Seq<u8>, pos: int) -> bool {
    let p1 = spec_tag_end(s, pos, "enum".spec_bytes());
    let p2 = if p1 >= 0 {
        spec_ms1_end(s, p1)
    } else {
        -1
    };
    let p3 = if p2 >= 0 {
        spec_ident_end(s, p2)
    } else {
        -1
    };
    let p = if p3 >= 0 {
        spec_ws_byte_end(s, p3, 123)
    } else {
        -1
    };
    &&& p >= 0
    &&& ({
        let q0 = spec_skip_ws(s, p);
        let pv = if spec_ident_end(s, q0) >= 0 {
            spec_variants_run_end(
                s,
                spec_skip_ws(s, spec_enum_variant_end(s, q0)),
                (s.len() + 1) as nat,
            )
        } else {
            p
        };
        let pt = if pv < s.len() && 0 <= pv && s[pv] == 44 {
            spec_skip_ws(s, pv + 1)
        } else {
            pv
        };
        spec_ws_byte_end(s, pt, 125) >= 0 && spec_ws_byte_end(
            s,
            spec_ws_byte_end(s, pt, 125),
            59,
        ) >= 0
    })
}

/// The enum definition `ed` read at `pos`, ending at `end`: `enum`,
/// whitespace, the enum's name, `{`, its comma-separated variants
/// with an optional trailing comma, `}`, `;`.
pub open spec fn spec_enum_def_at(s: Seq<u8>, pos: int, ed: EnumDef, end: int) -> bool {
    let p1 = spec_tag_end(s, pos, "enum".spec_bytes());
    let p2 = if p1 >= 0 {
        spec_ms1_end(s, p1)
    } else {
        -1
    };
    let p3 = if p2 >= 0 {
        spec_ident_end(s, p2)
    } else {
        -1
    };
    let p = if p3 >= 0 {
        spec_ws_byte_end(s, p3, 123)
    } else {
        -1
    };
    &&& p >= 0
    &&& ed.name@ == chars_of_ascii(s.subrange(p2, p3))
    &&& spec_enum_body_at(s, p, ed, end)
}

/// An enum's body read from `p`, just after the opening brace: its
/// variants, an optional trailing comma, and the closing `};`.
pub open spec fn spec_enum_body_at(s: Seq<u8>, p: int, ed: EnumDef, end: int) -> bool {
    exists|pv: int|
        #![trigger spec_variants_seq(s, p, pv, ed.variants@)]
        (spec_variants_seq(s, p, pv, ed.variants@) && spec_closing_at(
            s,
            if pv < s.len() && 0 <= pv && s[pv] == 44 {
                spec_skip_ws(s, pv + 1)
            } else {
                pv
            },
            end,
        ))
}

/// Where the enum definition read at `pos` ends.
pub open spec fn spec_enum_def_end(s: Seq<u8>, pos: int) -> int {
    let p1 = spec_tag_end(s, pos, "enum".spec_bytes());
    let p2 = spec_ms1_end(s, p1);
    let p3 = spec_ident_end(s, p2);
    let p = spec_ws_byte_end(s, p3, 123);
    let q0 = spec_skip_ws(s, p);
    let pv = if spec_ident_end(s, q0) >= 0 {
        spec_variants_run_end(
            s,
            spec_skip_ws(s, spec_enum_variant_end(s, q0)),
            (s.len() + 1) as nat,
        )
    } else {
        p
    };
    let pt = if pv < s.len() && 0 <= pv && s[pv] == 44 {
        spec_skip_ws(s, pv + 1)
    } else {
        pv
    };
    spec_ws_byte_end(s, spec_ws_byte_end(s, pt, 125), 59)
}

/// An enum definition: `enum NAME { variants };`, comma-separated with
/// an optional trailing comma.
pub fn enum_def(s: &[u8], pos: usize) -> (r: Result<(EnumDef, usize), ParseError>)
    requires
        pos <= s@.len(),
    ensures
        r matches Ok((v, end)) ==> pos < end <= s@.len(),
        r matches Ok((v, end)) ==> spec_enum_def_at(s@, pos as int, v, end as int),
        r is Ok <==> spec_enum_def_ok(s@, pos as int),
        r matches Ok((v, end)) ==> end == spec_enum_def_end(s@, pos as int),
{
    let p1 = match tag_at(s, pos, "enum".as_bytes()) {
        Some(p) => p,
        None => {
            return Err(ParseError { pos, expected: "enum" });
        },
    };
    let p2 = match ms1(s, p1) {
        Ok(p) => p,
        Err(e) => {
            return Err(e);
        },
    };
    let (name, p3) = match identifier(s, p2) {
        Ok(v) => v,
        Err(e) => {
            return Err(e);
        },
    };
    let mut p = match ws_byte(s, p3, 123) {
        Ok(p) => p,
        Err(e) => {
            return Err(e);
        },
    };
    let ghost p_start = p as int;
    let mut variants: Vec<EnumVariant> = Vec::new();
    proof {
        assert(variants@ =~= Seq::<EnumVariant>::empty());
    }
    let q0 = skip_ws(s, p);
    let ghost fuel0 = (s@.len() + 1) as nat;
    let ghost mut f: nat = fuel0;
    let ghost mut pv0 = p as int;
    match enum_variant(s, q0) {
        Ok((v, p2v)) => {
            variants.push(v);
            p = skip_ws(s, p2v);
            proof {
                assert(variants@[0] == v);
                assert(spec_variants_seq(s@, p_start, p as int, variants@));
                pv0 = p as int;
            }
            loop
                invariant_except_break
                    pos < p <= s@.len(),
                    p3 < p,
                    variants@.len() >= 1,
                    spec_variants_seq(s@, p_start, p as int, variants@),
                    f >= s@.len() - p + 1,
                    spec_variants_run_end(s@, pv0, fuel0) == spec_variants_run_end(
                        s@,
                        p as int,
                        f,
                    ),
                ensures
                    pos < p <= s@.len(),
                    p3 < p,
                    variants@.len() >= 1,
                    spec_variants_seq(s@, p_start, p as int, variants@),
                    spec_variants_run_end(s@, pv0, fuel0) == p as int,
                decreases s@.len() - p,
            {
                if p < s.len() && s[p] == 44 {
                    let ghost m = p as int;
                    let ghost vs0 = variants@;
                    let q = skip_ws(s, p + 1);
                    match enum_variant(s, q) {
                        Ok((v2, p3v)) => {
                            variants.push(v2);
                            proof {
                                assert(spec_variants_run_end(s@, m, f)
                                    == spec_variants_run_end(
                                    s@,
                                    spec_skip_ws(s@, p3v as int),
                                    (f - 1) as nat,
                                ));
                                f = (f - 1) as nat;
                            }
                            p = skip_ws(s, p3v);
                            proof {
                                assert(variants@.drop_last() =~= vs0);
                                assert(variants@.last() == v2);
                                assert(spec_enum_variant_at(
                                    s@,
                                    spec_skip_ws(s@, m + 1),
                                    variants@.last(),
                                    p3v as int,
                                ));
                                assert(spec_variants_seq(s@, p_start, p as int, variants@));
                            }
                        },
                        Err(_) => {
                            proof {
                                assert(spec_variants_run_end(s@, p as int, f) == p as int);
                            }
                            break ;
                        },
                    }
                } else {
                    proof {
                        assert(spec_variants_run_end(s@, p as int, f) == p as int);
                    }
                    break ;
                }
            }
        },
        Err(_) => {},
    }
    let ghost pv = p as int;
    if p < s.len() && s[p] == 44 {
        p = skip_ws(s, p + 1);
    }
    let p6 = match ws_byte(s, p, 125) {
        Ok(p2v) => p2v,
        Err(e) => {
            return Err(e);
        },
    };
    let p7 = match ws_byte(s, p6, 59) {
        Ok(p2v) => p2v,
        Err(e) => {
            return Err(e);
        },
    };
    let ed = EnumDef { name, variants };
    proof {
        lemma_ident_run_characterize(s@, p2 + 1, p3 as int);
        assert(spec_variants_seq(s@, p_start, pv, ed.variants@));
        assert(spec_closing_at(
            s@,
            if pv < s@.len() && 0 <= pv && s@[pv] == 44 {
                spec_skip_ws(s@, pv + 1)
            } else {
                pv
            },
            p7 as int,
        ));
        assert(spec_enum_body_at(s@, p_start, ed, p7 as int));
        assert(spec_enum_def_at(s@, pos as int, ed, p7 as int));
    }
    Ok((ed, p7))
}

/// What follows `case` and its whitespace, from `p2`: the case's
/// discriminant value, `:`, and either a field or `void;`.
pub open spec fn spec_union_case_rest(s: Seq<u8>, p2: int, c: UnionCase, end: int) -> bool {
    exists|e: int|
        #![trigger spec_const_value_at(s, p2, c.values@[0], e)]
        {
            let p4 = spec_ws_byte_end(s, e, 58);
            &&& spec_const_value_at(s, p2, c.values@[0], e)
            &&& p4 >= 0
            &&& ({
                ||| (c.field matches Some(f) && spec_field_def_at(s, p4, f, end))
                ||| (c.field is None && spec_tag_end(s, p4, "void".spec_bytes()) >= 0 && end
                    == spec_ws_byte_end(s, spec_tag_end(s, p4, "void".spec_bytes()), 59) && end
                    >= 0)
            })
        }
}

/// A union case can be read at `pos`: `case`, a value, `:`, and a
/// field or `void;`.
pub open spec fn spec_union_case_ok(s: Seq<u8>, pos: int) -> bool {
    let p1 = spec_tag_end(s, pos, "case".spec_bytes());
    let p2 = if p1 >= 0 {
        spec_ms1_end(s, p1)
    } else {
        -1
    };
    &&& p2 >= 0
    &&& spec_const_value_ok(s, p2)
    &&& ({
        let p4 = spec_ws_byte_end(s, spec_const_value_end(s, p2), 58);
        p4 >= 0 && (spec_field_def_ok(s, p4) || (spec_tag_end(s, p4, "void".spec_bytes()) >= 0
            && spec_ws_byte_end(s, spec_tag_end(s, p4, "void".spec_bytes()), 59) >= 0))
    })
}

/// The union case `c` read at `pos`, ending at `end`: `case`,
/// whitespace, one discriminant value, `:`, and a field or a void
/// arm.
pub open spec fn spec_union_case_at(s: Seq<u8>, pos: int, c: UnionCase, end: int) -> bool {
    let p1 = spec_tag_end(s, pos, "case".spec_bytes());
    let p2 = if p1 >= 0 {
        spec_ms1_end(s, p1)
    } else {
        -1
    };
    &&& p2 >= 0
    &&& c.values@.len() == 1
    &&& spec_union_case_rest(s, p2, c, end)
}

/// Where the union case read at `pos` ends: after its field, or
/// after `void;`.
pub open spec fn spec_union_case_end(s: Seq<u8>, pos: int) -> int {
    let p1 = spec_tag_end(s, pos, "case".spec_bytes());
    let p2 = spec_ms1_end(s, p1);
    let p4 = spec_ws_byte_end(s, spec_const_value_end(s, p2), 58);
    if spec_field_def_ok(s, p4) {
        spec_field_def_end(s, p4)
    } else {
        spec_ws_byte_end(s, spec_tag_end(s, p4, "void".spec_bytes()), 59)
    }
}

/// One case of a union: `case VALUE :` followed by a field or `void;`.
pub fn union_case(s: &[u8], pos: usize) -> (r: Result<(UnionCase, usize), ParseError>)
    requires
        pos <= s@.len(),
    ensures
        r matches Ok((v, end)) ==> pos < end <= s@.len(),
        r matches Ok((v, end)) ==> spec_union_case_at(s@, pos as int, v, end as int),
        r is Ok <==> spec_union_case_ok(s@, pos as int),
        r matches Ok((v, end)) ==> end == spec_union_case_end(s@, pos as int),
{
    let p1 = match tag_at(s, pos, "case".as_bytes()) {
        Some(p) => p,
        None => {
            return Err(ParseError { pos, expected: "case" });
        },
    };
    let p2 = match ms1(s, p1) {
        Ok(p) => p,
        Err(e) => {
            return Err(e);
        },
    };
    let (value, p3) = match const_value(s, p2) {
        Ok(v) => v,
        Err(e) => {
            return Err(e);
        },
    };
    let p4 = match ws_byte(s, p3, 58) {
        Ok(p) => p,
        Err(e) => {
            return Err(e);
        },
    };
    match field_def(s, p4) {
        Ok((f, p5)) => {
            let mut values: Vec<ConstValue> = Vec::new();
            values.push(value);
            let uc = UnionCase { values, field: Some(f) };
            proof {
                assert(spec_const_value_at(s@, p2 as int, uc.values@[0], p3 as int));
                assert(spec_field_def_at(s@, p4 as int, uc.field->0, p5 as int));
                assert(spec_union_case_rest(s@, p2 as int, uc, p5 as int));
                assert(spec_union_case_at(s@, pos as int, uc, p5 as int));
            }
            return Ok((uc, p5));
        },
        Err(_) => {},
    }
    let p5 = match tag_at(s, p4, "void".as_bytes()) {
        Some(p) => p,
        None => {
            return Err(ParseError { pos: p4, expected: "field or void" });
        },
    };
    let p6 = match ws_byte(s, p5, 59) {
        Ok(p) => p,
        Err(e) => {
            return Err(e);
        },
    };
    let mut values: Vec<ConstValue> = Vec::new();
    values.push(value);
    let uc = UnionCase { values, field: None };
    proof {
        assert(spec_const_value_at(s@, p2 as int, uc.values@[0], p3 as int));
        assert(spec_union_case_rest(s@, p2 as int, uc, p6 as int));
        assert(spec_union_case_at(s@, pos as int, uc, p6 as int));
    }
    Ok((uc, p6))
}

/// What follows `default :`, from `p2`: a field, whose type becomes
/// the default arm's type.
pub open spec fn spec_union_default_rest(s: Seq<u8>, p2: int, t: Type, end: int) -> bool {
    exists|f: Field|
        #![trigger spec_field_def_at(s, p2, f, end)]
        (spec_field_def_at(s, p2, f, end) && t == f.ty)
}

/// A default arm can be read at `pos`: `default`, `:`, and a field.
pub open spec fn spec_union_default_ok(s: Seq<u8>, pos: int) -> bool {
    let p1 = spec_ws_tag_end(s, pos, "default".spec_bytes());
    let p2 = if p1 >= 0 {
        spec_ws_byte_end(s, p1, 58)
    } else {
        -1
    };
    p2 >= 0 && spec_field_def_ok(s, p2)
}

/// The default arm read at `pos`, ending at `end`: `default`, `:`,
/// and a field whose type is `t`.
pub open spec fn spec_union_default_at(s: Seq<u8>, pos: int, t: Type, end: int) -> bool {
    let p1 = spec_ws_tag_end(s, pos, "default".spec_bytes());
    let p2 = if p1 >= 0 {
        spec_ws_byte_end(s, p1, 58)
    } else {
        -1
    };
    p2 >= 0 && spec_union_default_rest(s, p2, t, end)
}

/// Where the default arm read at `pos` ends.
pub open spec fn spec_union_default_end(s: Seq<u8>, pos: int) -> int {
    spec_field_def_end(
        s,
        spec_ws_byte_end(s, spec_ws_tag_end(s, pos, "default".spec_bytes()), 58),
    )
}

/// A union's default arm: `default : FIELD`.
pub fn union_default(s: &[u8], pos: usize) -> (r: Result<(Box<Type>, usize), ParseError>)
    requires
        pos <= s@.len(),
    ensures
        r matches Ok((v, end)) ==> pos <= end <= s@.len(),
        r matches Ok((v, end)) ==> spec_union_default_at(s@, pos as int, *v, end as int),
        r is Ok <==> spec_union_default_ok(s@, pos as int),
        r matches Ok((v, end)) ==> end == spec_union_default_end(s@, pos as int),
{
    let p1 = match ws_tag(s, pos, "default".as_bytes()) {
        Ok(p) => p,
        Err(e) => {
            return Err(e);
        },
    };
    let p2 = match ws_byte(s, p1, 58) {
        Ok(p) => p,
        Err(e) => {
            return Err(e);
        },
    };
    match field_def(s, p2) {
        Ok((f, p3)) => {
            let ghost fg = f;
            let bt = Box::new(f.ty);
            proof {
                assert(spec_field_def_at(s@, p2 as int, fg, p3 as int));
                assert(spec_union_default_rest(s@, p2 as int, *bt, p3 as int));
            }
            Ok((bt, p3))
        },
        Err(e) => Err(e),
    }
}

/// The cases `cs` read one after another from `start` (each after
/// leading whitespace), ending at `to`.
pub open spec fn spec_cases_seq(s: Seq<u8>, start: int, to: int, cs: Seq<UnionCase>) -> bool
    decreases cs.len(),
{
    if cs.len() == 0 {
        to == start
    } else {
        exists|m: int, e: int|
            #![trigger spec_union_case_at(s, spec_skip_ws(s, m), cs.last(), e)]
            (spec_cases_seq(s, start, m, cs.drop_last()) && spec_union_case_at(
                s,
                spec_skip_ws(s, m),
                cs.last(),
                e,
            ) && to == spec_skip_ws(s, e))
    }
}

/// The optional default arm and closing `};` after a union's cases,
/// from `pc`.
pub open spec fn spec_union_tail_default(s: Seq<u8>, pc: int, t: Type, end: int) -> bool {
    exists|e2: int|
        #![trigger spec_union_default_at(s, pc, t, e2)]
        (spec_union_default_at(s, pc, t, e2) && spec_closing_at(s, e2, end))
}

/// A union's body read from `p`, just after the opening brace: its
/// cases, an optional default arm, and the closing `};`.
pub open spec fn spec_union_body_at(s: Seq<u8>, p: int, ud: UnionDef, end: int) -> bool {
    exists|pc: int|
        #![trigger spec_cases_seq(s, p, pc, ud.cases@)]
        (spec_cases_seq(s, p, pc, ud.cases@) && ({
            ||| (ud.default matches Some(bt) && spec_union_tail_default(s, pc, *bt, end))
            ||| (ud.default is None && spec_closing_at(s, pc, end))
        }))
}

/// What follows the opening parenthesis of a union's switch, from
/// `p5`: the discriminant's type and name, `)`, `{`, and the union's
/// body.
pub open spec fn spec_union_rest_at(s: Seq<u8>, p5: int, ud: UnionDef, end: int) -> bool {
    exists|p6: int|
        #![trigger spec_type_at(s, p5, ud.discriminant.ty, p6)]
        {
            let p7 = spec_ms1_end(s, p6);
            let p8 = if p7 >= 0 {
                spec_ident_end(s, p7)
            } else {
                -1
            };
            let p9 = if p8 >= 0 {
                spec_ws_byte_end(s, p8, 41)
            } else {
                -1
            };
            let p = if p9 >= 0 {
                spec_ws_byte_end(s, p9, 123)
            } else {
                -1
            };
            &&& spec_type_at(s, p5, ud.discriminant.ty, p6)
            &&& p >= 0
            &&& ud.discriminant.name@ == chars_of_ascii(s.subrange(p7, p8))
            &&& spec_union_body_at(s, p, ud, end)
        }
}

/// Where the run of cases readable one after another from `p` ends;
/// the fuel bounds the recursion and exceeds any possible number of
/// cases.
pub open spec fn spec_cases_run_end(s: Seq<u8>, p: int, fuel: nat) -> int
    decreases fuel,
{
    if fuel > 0 && 0 <= p <= s.len() && spec_union_case_ok(s, spec_skip_ws(s, p)) {
        spec_cases_run_end(
            s,
            spec_skip_ws(s, spec_union_case_end(s, spec_skip_ws(s, p))),
            (fuel - 1) as nat,
        )
    } else {
        p
    }
}

/// A union definition can be read at `pos`: `union`, whitespace, a
/// name, `switch (TYPE NAME)`, `{`, cases, an optional default arm,
/// `}`, `;`.
pub open spec fn spec_union_def_ok(s: Seq<u8>, pos: int) -> bool {
    let p1 = spec_tag_end(s, pos, "union".spec_bytes());
    let p2 = if p1 >= 0 {
        spec_ms1_end(s, p1)
    } else {
        -1
    };
    let p3 = if p2 >= 0 {
        spec_ident_end(s, p2)
    } else {
        -1
    };
    let p4 = if p3 >= 0 {
        spec_ws_tag_end(s, p3, "switch".spec_bytes())
    } else {
        -1
    };
    let p5 = if p4 >= 0 {
        spec_ws_byte_end(s, p4, 40)
    } else {
        -1
    };
    &&& p5 >= 0
    &&& p5 < s.len() && is_ident_start(s[p5])
    &&& ({
        let p6 = spec_type_end(s, p5);
        let p7 = spec_ms1_end(s, p6);
        let p8 = if p7 >= 0 {
            spec_ident_end(s, p7)
        } else {
            -1
        };
        let p9 = if p8 >= 0 {
            spec_ws_byte_end(s, p8, 41)
        } else {
            -1
        };
        let pb = if p9 >= 0 {
            spec_ws_byte_end(s, p9, 123)
        } else {
            -1
        };
        &&& pb >= 0
        &&& ({
            let pc = spec_cases_run_end(s, pb, (s.len() + 1) as nat);
            let pd = if spec_union_default_ok(s, pc) {
                spec_union_default_end(s, pc)
            } else {
                pc
            };
            spec_ws_byte_end(s, pd, 125) >= 0 && spec_ws_byte_end(
                s,
                spec_ws_byte_end(s, pd, 125),
                59,
            ) >= 0
        })
    })
}

/// The union definition `ud` read at `pos`, ending at `end`: `union`,
/// whitespace, the union's name, `switch (TYPE NAME)`, `{`, its cases
/// and optional default arm, `}`, `;`.
pub open spec fn spec_union_def_at(s: Seq<u8>, pos: int, ud: UnionDef, end: int) -> bool {
    let p1 = spec_tag_end(s, pos, "union".spec_bytes());
    let p2 = if p1 >= 0 {
        spec_ms1_end(s, p1)
    } else {
        -1
    };
    let p3 = if p2 >= 0 {
        spec_ident_end(s, p2)
    } else {
        -1
    };
    let p4 = if p3 >= 0 {
        spec_ws_tag_end(s, p3, "switch".spec_bytes())
    } else {
        -1
    };
    let p5 = if p4 >= 0 {
        spec_ws_byte_end(s, p4, 40)
    } else {
        -1
    };
    &&& p5 >= 0
    &&& ud.name@ == chars_of_ascii(s.subrange(p2, p3))
    &&& spec_union_rest_at(s, p5, ud, end)
}

/// Where the union definition read at `pos` ends.
pub open spec fn spec_union_def_end(s: Seq<u8>, pos: int) -> int {
    let p1 = spec_tag_end(s, pos, "union".spec_bytes());
    let p2 = spec_ms1_end(s, p1);
    let p3 = spec_ident_end(s, p2);
    let p4 = spec_ws_tag_end(s, p3, "switch".spec_bytes());
    let p5 = spec_ws_byte_end(s, p4, 40);
    let p6 = spec_type_end(s, p5);
    let p7 = spec_ms1_end(s, p6);
    let p8 = spec_ident_end(s, p7);
    let p9 = spec_ws_byte_end(s, p8, 41);
    let pb = spec_ws_byte_end(s, p9, 123);
    let pc = spec_cases_run_end(s, pb, (s.len() + 1) as nat);
    let pd = if spec_union_default_ok(s, pc) {
        spec_union_default_end(s, pc)
    } else {
        pc
    };
    spec_ws_byte_end(s, spec_ws_byte_end(s, pd, 125), 59)
}

/// A union definition: `union NAME switch (TYPE NAME) { cases };`.
pub fn union_def(s: &[u8], pos: usize) -> (r: Result<(UnionDef, usize), ParseError>)
    requires
        pos <= s@.len(),
    ensures
        r matches Ok((v, end)) ==> pos < end <= s@.len(),
        r matches Ok((v, end)) ==> spec_union_def_at(s@, pos as int, v, end as int),
        r is Ok <==> spec_union_def_ok(s@, pos as int),
        r matches Ok((v, end)) ==> end == spec_union_def_end(s@, pos as int),
{
    let p1 = match tag_at(s, pos, "union".as_bytes()) {
        Some(p) => p,
        None => {
            return Err(ParseError { pos, expected: "union" });
        },
    };
    let p2 = match ms1(s, p1) {
        Ok(p) => p,
        Err(e) => {
            return Err(e);
        },
    };
    let (name, p3) = match identifier(s, p2) {
        Ok(v) => v,
        Err(e) => {
            return Err(e);
        },
    };
    let p4 = match ws_tag(s, p3, "switch".as_bytes()) {
        Ok(p) => p,
        Err(e) => {
            return Err(e);
        },
    };
    let p5 = match ws_byte(s, p4, 40) {
        Ok(p) => p,
        Err(e) => {
            return Err(e);
        },
    };
    let ghost dt: Type;
    let (disc_ty, p6) = match type_spec(s, p5) {
        Ok(v) => v,
        Err(e) => {
            return Err(e);
        },
    };
    proof {
        dt = disc_ty;
    }
    let p7 = match ms1(s, p6) {
        Ok(p) => p,
        Err(e) => {
            return Err(e);
        },
    };
    let (disc_name, p8) = match identifier(s, p7) {
        Ok(v) => v,
        Err(e) => {
            return Err(e);
        },
    };
    let p9 = match ws_byte(s, p8, 41) {
        Ok(p) => p,
        Err(e) => {
            return Err(e);
        },
    };
    let mut p = match ws_byte(s, p9, 123) {
        Ok(p2) => p2,
        Err(e) => {
            return Err(e);
        },
    };
    let ghost p_start = p as int;
    let ghost fuel0 = (s@.len() + 1) as nat;
    let ghost mut f: nat = fuel0;
    let mut cases: Vec<UnionCase> = Vec::new();
    proof {
        assert(cases@ =~= Seq::<UnionCase>::empty());
    }
    loop
        invariant_except_break
            pos < p <= s@.len(),
            p3 < p,
            spec_cases_seq(s@, p_start, p as int, cases@),
            f >= s@.len() - p + 1,
            spec_cases_run_end(s@, p_start, fuel0) == spec_cases_run_end(s@, p as int, f),
        ensures
            pos < p <= s@.len(),
            p3 < p,
            spec_cases_seq(s@, p_start, p as int, cases@),
            spec_cases_run_end(s@, p_start, fuel0) == p as int,
        decreases s@.len() - p,
    {
        let ghost m = p as int;
        let ghost cs0 = cases@;
        let q = skip_ws(s, p);
        match union_case(s, q) {
            Ok((c, p2c)) => {
                cases.push(c);
                proof {
                    assert(spec_cases_run_end(s@, m, f) == spec_cases_run_end(
                        s@,
                        spec_skip_ws(s@, p2c as int),
                        (f - 1) as nat,
                    ));
                    f = (f - 1) as nat;
                }
                p = skip_ws(s, p2c);
                proof {
                    assert(cases@.drop_last() =~= cs0);
                    assert(cases@.last() == c);
                    assert(spec_union_case_at(
                        s@,
                        spec_skip_ws(s@, m),
                        cases@.last(),
                        p2c as int,
                    ));
                    assert(spec_cases_seq(s@, p_start, p as int, cases@));
                }
            },
            Err(_) => {
                proof {
                    assert(spec_cases_run_end(s@, p as int, f) == p as int);
                }
                break ;
            },
        }
    }
    let ghost pc = p as int;
    let ghost had_default: bool;
    let ghost dend: int;
    let default = match union_default(s, p) {
        Ok((d, p2d)) => {
            proof {
                had_default = true;
                dend = p2d as int;
            }
            p = p2d;
            Some(d)
        },
        Err(_) => {
            proof {
                had_default = false;
                dend = 0;
            }
            None
        },
    };
    let pa = match ws_byte(s, p, 125) {
        Ok(p2) => p2,
        Err(e) => {
            return Err(e);
        },
    };
    let pb = match ws_byte(s, pa, 59) {
        Ok(p2) => p2,
        Err(e) => {
            return Err(e);
        },
    };
    let ud = UnionDef { name, discriminant: Field { name: disc_name, ty: disc_ty }, cases, default };
    proof {
        lemma_ident_run_characterize(s@, p2 + 1, p3 as int);
        lemma_ident_run_characterize(s@, p7 + 1, p8 as int);
        assert(spec_cases_seq(s@, p_start, pc, ud.cases@));
        if had_default {
            assert(spec_union_default_at(s@, pc, *ud.default->0, dend));
            assert(spec_closing_at(s@, dend, pb as int));
            assert(spec_union_tail_default(s@, pc, *ud.default->0, pb as int));
        } else {
            assert(spec_closing_at(s@, pc, pb as int));
        }
        assert(spec_union_body_at(s@, p_start, ud, pb as int));
        assert(spec_type_at(s@, p5 as int, ud.discriminant.ty, p6 as int));
        assert(spec_union_rest_at(s@, p5 as int, ud, pb as int));
        assert(spec_union_def_at(s@, pos as int, ud, pb as int));
    }
    Ok((ud, pb))
}

/// What follows `typedef` and its whitespace, from `p2`: a type, an
/// optional `*` — which wraps the final type in `Optional` — the
/// alias's name, an optional array suffix, and `;`.
pub open spec fn spec_typedef_rest_at(s: Seq<u8>, p2: int, td: TypedefDef, end: int) -> bool {
    exists|t0: Type, p3: int, e: int|
        #![trigger spec_type_at(s, p2, t0, p3), spec_skip_ws(s, e)]
        {
            let p4 = spec_skip_ws(s, p3);
            let isptr = p4 < s.len() && s[p4] == 42;
            let p5 = if isptr {
                spec_skip_ws(s, p4 + 1)
            } else {
                p4
            };
            let p6 = spec_ident_end(s, p5);
            &&& spec_type_at(s, p2, t0, p3)
            &&& p6 >= 0
            &&& td.name@ == chars_of_ascii(s.subrange(p5, p6))
            &&& (if isptr {
                (td.target matches Type::Optional(inner) && spec_array_suffix_at(
                    s,
                    p6,
                    t0,
                    *inner,
                    e,
                ))
            } else {
                spec_array_suffix_at(s, p6, t0, td.target, e)
            })
            &&& end == spec_ws_byte_end(s, e, 59)
            &&& end >= 0
        }
}

/// A typedef can be read at `pos`: `typedef`, a type, an optional
/// `*`, a name, a well-formed suffix, and `;`.
pub open spec fn spec_typedef_def_ok(s: Seq<u8>, pos: int) -> bool {
    let p1 = spec_tag_end(s, pos, "typedef".spec_bytes());
    let p2 = if p1 >= 0 {
        spec_ms1_end(s, p1)
    } else {
        -1
    };
    let p3 = if p2 >= 0 {
        spec_type_end(s, p2)
    } else {
        -1
    };
    if p2 < 0 || p3 < 0 {
        false
    } else {
        let p4 = spec_skip_ws(s, p3);
        let isptr = p4 < s.len() && s[p4] == 42;
        let p5 = if isptr {
            spec_skip_ws(s, p4 + 1)
        } else {
            p4
        };
        let p6 = spec_ident_end(s, p5);
        &&& p6 >= 0
        &&& spec_array_suffix_ok(s, p6)
        &&& spec_ws_byte_end(s, spec_array_suffix_end(s, p6), 59) >= 0
    }
}

/// The typedef `td` read at `pos`, ending at `end`: `typedef`, a
/// type, an optional `*`, the alias's name, an optional array suffix,
/// and `;`.
pub open spec fn spec_typedef_def_at(s: Seq<u8>, pos: int, td: TypedefDef, end: int) -> bool {
    let p1 = spec_tag_end(s, pos, "typedef".spec_bytes());
    let p2 = if p1 >= 0 {
        spec_ms1_end(s, p1)
    } else {
        -1
    };
    p2 >= 0 && spec_typedef_rest_at(s, p2, td, end)
}

/// Where the typedef read at `pos` ends.
pub open spec fn spec_typedef_def_end(s: Seq<u8>, pos: int) -> int {
    let p1 = spec_tag_end(s, pos, "typedef".spec_bytes());
    let p2 = spec_ms1_end(s, p1);
    let p3 = spec_type_end(s, p2);
    let p4 = spec_skip_ws(s, p3);
    let isptr = p4 < s.len() && s[p4] == 42;
    let p5 = if isptr {
        spec_skip_ws(s, p4 + 1)
    } else {
        p4
    };
    let p6 = spec_ident_end(s, p5);
    spec_ws_byte_end(s, spec_array_suffix_end(s, p6), 59)
}

/// A typedef: `typedef TYPE NAME;`, with an optional `*` before the
/// name and an optional array suffix after it.
pub fn typedef_def(s: &[u8], pos: usize) -> (r: Result<(TypedefDef, usize), ParseError>)
    requires
        pos <= s@.len(),
    ensures
        r matches Ok((v, end)) ==> pos < end <= s@.len(),
        r matches Ok((v, end)) ==> spec_typedef_def_at(s@, pos as int, v, end as int),
        r is Ok <==> spec_typedef_def_ok(s@, pos as int),
        r matches Ok((v, end)) ==> end == spec_typedef_def_end(s@, pos as int),
{
    let p1 = match tag_at(s, pos, "typedef".as_bytes()) {
        Some(p) => p,
        None => {
            return Err(ParseError { pos, expected: "typedef" });
        },
    };
    let p2 = match ms1(s, p1) {
        Ok(p) => p,
        Err(e) => {
            return Err(e);
        },
    };
    let ghost t0: Type;
    let (target0, p3) = match type_spec(s, p2) {
        Ok(v) => v,
        Err(e) => {
            proof {
                lemma_type_end_none(s@, p2 as int);
            }
            return Err(e);
        },
    };
    proof {
        t0 = target0;
    }
    let p4 = skip_ws(s, p3);
    let (is_pointer, p5) = if p4 < s.len() && s[p4] == 42 {
        (true, skip_ws(s, p4 + 1))
    } else {
        (false, p4)
    };
    let (name, p6) = match identifier(s, p5) {
        Ok(v) => v,
        Err(e) => {
            return Err(e);
        },
    };
    let (target1, p7) = match array_suffix(s, p6, target0) {
        Ok(v) => v,
        Err(e) => {
            return Err(e);
        },
    };
    let p8 = match ws_byte(s, p7, 59) {
        Ok(p) => p,
        Err(e) => {
            return Err(e);
        },
    };
    let ghost t1 = target1;
    let target = if is_pointer {
        Type::Optional(Box::new(target1))
    } else {
        target1
    };
    let td = TypedefDef { name, target };
    proof {
        lemma_ident_run_characterize(s@, p5 + 1, p6 as int);
        assert(spec_type_at(s@, p2 as int, t0, p3 as int));
        assert(spec_array_suffix_at(s@, p6 as int, t0, t1, p7 as int));
        assert(p8 as int == spec_ws_byte_end(s@, p7 as int, 59));
        assert(spec_typedef_rest_at(s@, p2 as int, td, p8 as int));
        assert(spec_typedef_def_at(s@, pos as int, td, p8 as int));
    }
    Ok((td, p8))
}

/// The type definition `t` read at `pos`, ending at `end`: the
/// definition form matching its variant.
pub open spec fn spec_type_def_at(s: Seq<u8>, pos: int, t: TypeDef, end: int) -> bool {
    match t {
        TypeDef::Struct(sd) => spec_struct_def_at(s, pos, sd, end),
        TypeDef::Enum(ed) => spec_enum_def_at(s, pos, ed, end),
        TypeDef::Union(ud) => spec_union_def_at(s, pos, ud, end),
        TypeDef::Typedef(td) => spec_typedef_def_at(s, pos, td, end),
    }
}

/// A type definition can be read at `pos`: one of the four forms.
pub open spec fn spec_type_def_ok(s: Seq<u8>, pos: int) -> bool {
    ||| spec_struct_def_ok(s, pos)
    ||| spec_enum_def_ok(s, pos)
    ||| spec_union_def_ok(s, pos)
    ||| spec_typedef_def_ok(s, pos)
}

/// Where the type definition read at `pos` ends, the forms tried in
/// the parser's order.
pub open spec fn spec_type_def_end(s: Seq<u8>, pos: int) -> int {
    if spec_struct_def_ok(s, pos) {
        spec_struct_def_end(s, pos)
    } else if spec_enum_def_ok(s, pos) {
        spec_enum_def_end(s, pos)
    } else if spec_union_def_ok(s, pos) {
        spec_union_def_end(s, pos)
    } else {
        spec_typedef_def_end(s, pos)
    }
}

/// A type definition: a struct, enum, union or typedef.
pub fn type_def(s: &[u8], pos: usize) -> (r: Result<(TypeDef, usize), ParseError>)
    requires
        pos <= s@.len(),
    ensures
        r matches Ok((v, end)) ==> pos < end <= s@.len(),
        r matches Ok((v, end)) ==> spec_type_def_at(s@, pos as int, v, end as int),
        r is Ok <==> spec_type_def_ok(s@, pos as int),
        r matches Ok((v, end)) ==> end == spec_type_def_end(s@, pos as int),
{
    match struct_def(s, pos) {
        Ok((v, end)) => {
            return Ok((TypeDef::Struct(v), end));
        },
        Err(_) => {},
    }
    match enum_def(s, pos) {
        Ok((v, end)) => {
            return Ok((TypeDef::Enum(v), end));
        },
        Err(_) => {},
    }
    match union_def(s, pos) {
        Ok((v, end)) => {
            return Ok((TypeDef::Union(v), end));
        },
        Err(_) => {},
    }
    match typedef_def(s, pos) {
        Ok((v, end)) => Ok((TypeDef::Typedef(v), end)),
        Err(e) => Err(e),
    }
}

/// The result of folding the metadata constants over a protocol's
/// name, program identifier and version, in source order: a
/// `*_PROGRAM` constant with an integer value sets the program
/// identifier, and any `*_PROGRAM` constant names the protocol after
/// its prefix; a `*_PROTOCOL_VERSION` constant with an integer value
/// sets the version.
pub open spec fn spec_meta_fold(
    cs: Seq<Constant>,
    name: Seq<char>,
    pid: Option<u32>,
    ver: Option<u32>,
) -> (Seq<char>, Option<u32>, Option<u32>)
    decreases cs.len(),
{
    if cs.len() == 0 {
        (name, pid, ver)
    } else {
        let c = cs[0];
        let n = c.name@;
        if n == "REMOTE_PROGRAM"@ || n == "QEMU_PROGRAM"@ || n == "LXC_PROGRAM"@ {
            let pid2 = match c.value {
                ConstValue::Int(v) => Some(v as u32),
                ConstValue::Ident(_) => pid,
            };
            let name2 = if n == "QEMU_PROGRAM"@ {
                "qemu"@
            } else if n == "LXC_PROGRAM"@ {
                "lxc"@
            } else {
                "remote"@
            };
            spec_meta_fold(cs.drop_first(), name2, pid2, ver)
        } else if n == "REMOTE_PROTOCOL_VERSION"@ || n == "QEMU_PROTOCOL_VERSION"@ || n
            == "LXC_PROTOCOL_VERSION"@ {
            let ver2 = match c.value {
                ConstValue::Int(v) => Some(v as u32),
                ConstValue::Ident(_) => ver,
            };
            spec_meta_fold(cs.drop_first(), name, pid, ver2)
        } else {
            spec_meta_fold(cs.drop_first(), name, pid, ver)
        }
    }
}

/// Read the protocol's name, program identifier and version off its
/// constants, exactly as [`spec_meta_fold`] states; everything else is
/// untouched.
pub fn extract_protocol_metadata(protocol: &mut Protocol)
    ensures
        ({
            let m = spec_meta_fold(
                old(protocol).constants@,
                old(protocol).name@,
                old(protocol).program_id,
                old(protocol).protocol_version,
            );
            &&& final(protocol).name@ == m.0
            &&& final(protocol).program_id == m.1
            &&& final(protocol).protocol_version == m.2
        }),
        final(protocol).constants@ == old(protocol).constants@,
        final(protocol).types@ == old(protocol).types@,
        final(protocol).procedures@ == old(protocol).procedures@,
{
    let n = protocol.constants.len();
    proof {
        assert(protocol.constants@.skip(0) =~= protocol.constants@);
    }
    let mut i: usize = 0;
    while i < n
        invariant
            i <= n,
            n == protocol.constants@.len(),
            protocol.constants@ == old(protocol).constants@,
            protocol.types@ == old(protocol).types@,
            protocol.procedures@ == old(protocol).procedures@,
            spec_meta_fold(
                old(protocol).constants@,
                old(protocol).name@,
                old(protocol).program_id,
                old(protocol).protocol_version,
            ) == spec_meta_fold(
                protocol.constants@.skip(i as int),
                protocol.name@,
                protocol.program_id,
                protocol.protocol_version,
            ),
        decreases n - i,
    {
        proof {
            assert(protocol.constants@.skip(i as int).drop_first() =~= protocol.constants@.skip(
                i + 1,
            ));
            assert(protocol.constants@.skip(i as int)[0] == protocol.constants@[i as int]);
        }
        let c_name: &String = &protocol.constants[i].name;
        let is_remote_p = str_eq(c_name.as_str(), "REMOTE_PROGRAM");
        let is_qemu_p = str_eq(c_name.as_str(), "QEMU_PROGRAM");
        let is_lxc_p = str_eq(c_name.as_str(), "LXC_PROGRAM");
        if is_remote_p || is_qemu_p || is_lxc_p {
            match &protocol.constants[i].value {
                ConstValue::Int(v) => {
                    protocol.program_id = Some(#[verifier::truncate] (*v as u32));
                },
                ConstValue::Ident(_) => {},
            }
            protocol.name = if is_qemu_p {
                String::from_str("qemu")
            } else if is_lxc_p {
                String::from_str("lxc")
            } else {
                String::from_str("remote")
            };
        } else if str_eq(c_name.as_str(), "REMOTE_PROTOCOL_VERSION") || str_eq(
            c_name.as_str(),
            "QEMU_PROTOCOL_VERSION",
        ) || str_eq(c_name.as_str(), "LXC_PROTOCOL_VERSION") {
            match &protocol.constants[i].value {
                ConstValue::Int(v) => {
                    protocol.protocol_version = Some(#[verifier::truncate] (*v as u32));
                },
                ConstValue::Ident(_) => {},
            }
        }
        i = i + 1;
    }
    proof {
        assert(protocol.constants@.skip(n as int) =~= Seq::<Constant>::empty());
    }
}

/// A type definition is a struct of this name.
pub open spec fn spec_is_struct_named(t: TypeDef, nb: Seq<u8>) -> bool {
    t matches TypeDef::Struct(sd) && encode_utf8(sd.name@) == nb
}

/// Some struct of this name is among the type definitions.
pub open spec fn spec_has_struct(types: Seq<TypeDef>, nb: Seq<u8>) -> bool {
    exists|i: int| 0 <= i < types.len() && spec_is_struct_named(types[i], nb)
}

/// The first enum of this name among the type definitions.
pub open spec fn spec_first_enum_named(types: Seq<TypeDef>, n: Seq<char>) -> Option<EnumDef>
    decreases types.len(),
{
    if types.len() == 0 {
        None
    } else if types[0] matches TypeDef::Enum(e) && e.name@ == n {
        Some(types[0]->Enum_0)
    } else {
        spec_first_enum_named(types.drop_first(), n)
    }
}

/// A variant name whose bytes are all ASCII; the parser produces no
/// other.
pub open spec fn spec_ascii_name(v: EnumVariant) -> bool {
    forall|i: int| 0 <= i < encode_utf8(v.name@).len() ==> encode_utf8(v.name@)[i] < 128
}

/// The variants that become procedures: those with an integer value
/// and an ASCII name, in order.
pub open spec fn spec_proc_variants(vs: Seq<EnumVariant>) -> Seq<EnumVariant>
    decreases vs.len(),
{
    if vs.len() == 0 {
        Seq::<EnumVariant>::empty()
    } else {
        spec_proc_variants(vs.drop_last()) + if (vs.last().value matches Some(ConstValue::Int(_))
            && spec_ascii_name(vs.last())) {
            seq![vs.last()]
        } else {
            Seq::<EnumVariant>::empty()
        }
    }
}

/// The suffix of `s` after the prefix `p`, or `s` itself where `p` is
/// no prefix of it.
pub open spec fn spec_strip_prefix(s: Seq<u8>, p: Seq<u8>) -> Seq<u8> {
    if p.len() <= s.len() && s.subrange(0, p.len() as int) == p {
        s.skip(p.len() as int)
    } else {
        s
    }
}

/// The bytes with ASCII capitals lowercased.
pub open spec fn spec_lower_bytes(s: Seq<u8>) -> Seq<u8> {
    s.map_values(|b: u8| ascii_lower_byte(b))
}

/// The procedure-enum name, procedure-name prefix and type-name prefix
/// of a protocol, chosen by the protocol's name.
pub open spec fn spec_proc_prefixes(n: Seq<char>) -> (Seq<char>, Seq<u8>, Seq<u8>) {
    if n == "qemu"@ {
        ("qemu_procedure"@, "QEMU_PROC_".spec_bytes(), "qemu_".spec_bytes())
    } else if n == "lxc"@ {
        ("lxc_procedure"@, "LXC_PROC_".spec_bytes(), "lxc_".spec_bytes())
    } else {
        ("remote_procedure"@, "REMOTE_PROC_".spec_bytes(), "remote_".spec_bytes())
    }
}

/// What one procedure of the table says of the variant it came from:
/// it keeps the variant's name and number, its argument and return
/// types are the structs `<prefix><base>_args` and `<prefix><base>_ret`
/// exactly where such structs exist — `base` being the variant's name
/// without the procedure prefix, lowercased — and its priority is the
/// default.
pub open spec fn spec_proc_matches(
    p: Procedure,
    v: EnumVariant,
    types: Seq<TypeDef>,
    pprefix: Seq<u8>,
    tprefix: Seq<u8>,
) -> bool {
    let base = spec_lower_bytes(spec_strip_prefix(encode_utf8(v.name@), pprefix));
    let an = tprefix + base + "_args".spec_bytes();
    let rn = tprefix + base + "_ret".spec_bytes();
    &&& p.name@ == v.name@
    &&& (v.value matches Some(ConstValue::Int(num)) ==> p.number == num as u32)
    &&& (p.args is Some <==> spec_has_struct(types, an))
    &&& (p.args matches Some(a) ==> encode_utf8(a@) == an)
    &&& (p.ret is Some <==> spec_has_struct(types, rn))
    &&& (p.ret matches Some(rr) ==> encode_utf8(rr@) == rn)
    &&& p.priority == Priority::Low
}

/// Whether every byte of the buffer is ASCII.
pub fn is_ascii_bytes(b: &[u8]) -> (r: bool)
    ensures
        r == forall|i: int| 0 <= i < b@.len() ==> b@[i] < 128,
{
    let mut i: usize = 0;
    while i < b.len()
        invariant
            i <= b@.len(),
            forall|k: int| 0 <= k < i ==> b@[k] < 128,
        decreases b@.len() - i,
    {
        if b[i] >= 128 {
            return false;
        }
        i = i + 1;
    }
    true
}

/// Whether a struct with these name bytes is among the types.
fn has_struct(types: &Vec<TypeDef>, nb: &[u8]) -> (r: bool)
    ensures
        r == spec_has_struct(types@, nb@),
{
    let mut i: usize = 0;
    while i < types.len()
        invariant
            i <= types@.len(),
            forall|k: int| 0 <= k < i ==> !spec_is_struct_named(types@[k], nb@),
        decreases types@.len() - i,
    {
        match &types[i] {
            TypeDef::Struct(sd) => {
                if bytes_eq(sd.name.as_str().as_bytes(), nb) {
                    return true;
                }
            },
            _ => {},
        }
        i = i + 1;
    }
    false
}

/// The first enum of name `n` is found wherever nothing before it
/// matches.
proof fn lemma_first_enum_skip(types: Seq<TypeDef>, n: Seq<char>, i: int)
    requires
        0 <= i <= types.len(),
        forall|k: int|
            0 <= k < i ==> !(#[trigger] types[k] matches TypeDef::Enum(e) && e.name@ == n),
    ensures
        spec_first_enum_named(types, n) == spec_first_enum_named(types.skip(i), n),
    decreases i,
{
    if i > 0 {
        assert(!(types[0] matches TypeDef::Enum(e) && e.name@ == n));
        lemma_first_enum_skip(types.drop_first(), n, i - 1);
        assert(types.drop_first().skip(i - 1) =~= types.skip(i));
    } else {
        assert(types.skip(0) =~= types);
    }
}

/// Fill the protocol's procedure table from its procedure enum: one
/// procedure per integer-valued variant, in order, each matched to its
/// `_args` and `_ret` structs exactly where those exist, as
/// [`spec_proc_matches`] states. Without a procedure enum the table is
/// left alone. Variants whose names hold bytes beyond ASCII are
/// skipped; the parser produces none.
pub fn extract_procedures(protocol: &mut Protocol)
    ensures
        final(protocol).name@ == old(protocol).name@,
        final(protocol).program_id == old(protocol).program_id,
        final(protocol).protocol_version == old(protocol).protocol_version,
        final(protocol).constants@ == old(protocol).constants@,
        final(protocol).types@ == old(protocol).types@,
        ({
            let pr = spec_proc_prefixes(old(protocol).name@);
            match spec_first_enum_named(old(protocol).types@, pr.0) {
                None => final(protocol).procedures@ == old(protocol).procedures@,
                Some(ed) => {
                    let pv = spec_proc_variants(ed.variants@);
                    &&& final(protocol).procedures@.len() == old(protocol).procedures@.len()
                        + pv.len()
                    &&& final(protocol).procedures@.subrange(
                        0,
                        old(protocol).procedures@.len() as int,
                    ) == old(protocol).procedures@
                    &&& forall|j: int|
                        0 <= j < pv.len() ==> spec_proc_matches(
                            #[trigger] final(protocol).procedures@[old(
                                protocol,
                            ).procedures@.len() + j],
                            pv[j],
                            old(protocol).types@,
                            pr.1,
                            pr.2,
                        )
                },
            }
        }),
{
    let is_qemu = str_eq(protocol.name.as_str(), "qemu");
    let is_lxc = str_eq(protocol.name.as_str(), "lxc");
    let ename: &str = if is_qemu {
        "qemu_procedure"
    } else if is_lxc {
        "lxc_procedure"
    } else {
        "remote_procedure"
    };
    let pprefix: &[u8] = if is_qemu {
        "QEMU_PROC_".as_bytes()
    } else if is_lxc {
        "LXC_PROC_".as_bytes()
    } else {
        "REMOTE_PROC_".as_bytes()
    };
    let tprefix: &[u8] = if is_qemu {
        "qemu_".as_bytes()
    } else if is_lxc {
        "lxc_".as_bytes()
    } else {
        "remote_".as_bytes()
    };
    proof {
        reveal_strlit("qemu_");
        reveal_strlit("lxc_");
        reveal_strlit("remote_");
        reveal_strlit("_args");
        reveal_strlit("_ret");
        assert(is_ascii_chars_of("qemu_"@) && is_ascii_chars_of("lxc_"@) && is_ascii_chars_of(
            "remote_"@,
        ) && is_ascii_chars_of("_args"@) && is_ascii_chars_of("_ret"@));
        lemma_ascii_str_bytes("qemu_"@);
        lemma_ascii_str_bytes("lxc_"@);
        lemma_ascii_str_bytes("remote_"@);
        lemma_ascii_str_bytes("_args"@);
        lemma_ascii_str_bytes("_ret"@);
        assert((ename@, pprefix@, tprefix@) == spec_proc_prefixes(protocol.name@));
    }
    let n = protocol.types.len();
    let mut fidx: usize = n;
    let mut j: usize = 0;
    while j < n
        invariant_except_break
            j <= n,
            fidx == n,
            n == protocol.types@.len(),
            forall|k: int|
                0 <= k < j ==> !(#[trigger] protocol.types@[k] matches TypeDef::Enum(e)
                    && e.name@ == ename@),
        ensures
            n == protocol.types@.len(),
            fidx <= n,
            fidx == n ==> forall|k: int|
                0 <= k < n ==> !(#[trigger] protocol.types@[k] matches TypeDef::Enum(e)
                    && e.name@ == ename@),
            fidx < n ==> (protocol.types@[fidx as int] matches TypeDef::Enum(e) && e.name@
                == ename@) && forall|k: int|
                0 <= k < fidx ==> !(#[trigger] protocol.types@[k] matches TypeDef::Enum(e)
                    && e.name@ == ename@),
        decreases n - j,
    {
        match &protocol.types[j] {
            TypeDef::Enum(e) => {
                if str_eq(e.name.as_str(), ename) {
                    fidx = j;
                    break ;
                }
            },
            _ => {},
        }
        j = j + 1;
    }
    if fidx == n {
        proof {
            lemma_first_enum_skip(protocol.types@, ename@, n as int);
            assert(protocol.types@.skip(n as int) =~= Seq::<TypeDef>::empty());
        }
        return ;
    }
    proof {
        lemma_first_enum_skip(protocol.types@, ename@, fidx as int);
        assert(protocol.types@.skip(fidx as int)[0] == protocol.types@[fidx as int]);
    }
    let ghost ed = spec_first_enum_named(protocol.types@, ename@)->Some_0;
    let mut collected: Vec<(String, i64)> = Vec::new();
    match &protocol.types[fidx] {
        TypeDef::Enum(e) => {
            proof {
                assert(e == ed);
                assert(ed.variants@.take(0) =~= Seq::<EnumVariant>::empty());
            }
            let m = e.variants.len();
            let mut k: usize = 0;
            while k < m
                invariant
                    k <= m,
                    m == e.variants@.len(),
                    e == ed,
                    ({
                        let pv = spec_proc_variants(ed.variants@.take(k as int));
                        &&& collected@.len() == pv.len()
                        &&& forall|q: int|
                            0 <= q < pv.len() ==> (#[trigger] collected@[q]).0@ == pv[q].name@
                                && pv[q].value == Some(ConstValue::Int(collected@[q].1)) && (
                            forall|b: int|
                                0 <= b < encode_utf8(collected@[q].0@).len() ==> encode_utf8(
                                    collected@[q].0@,
                                )[b] < 128)
                    }),
                decreases m - k,
            {
                proof {
                    assert(ed.variants@.take(k + 1).drop_last() =~= ed.variants@.take(k as int));
                }
                let v = &e.variants[k];
                match &v.value {
                    Option::Some(ConstValue::Int(nv)) => {
                        if is_ascii_bytes(v.name.as_str().as_bytes()) {
                            collected.push((v.name.clone(), *nv));
                        }
                    },
                    _ => {},
                }
                k = k + 1;
            }
            proof {
                assert(ed.variants@.take(m as int) =~= ed.variants@);
            }
        },
        _ => {
            proof {
                assert(false);
            }
        },
    }
    let ghost pv = spec_proc_variants(ed.variants@);
    let ghost old_procs = protocol.procedures@;
    let cnt = collected.len();
    let mut k: usize = 0;
    while k < cnt
        invariant
            k <= cnt,
            cnt == collected@.len(),
            cnt == pv.len(),
            protocol.name@ == old(protocol).name@,
            protocol.program_id == old(protocol).program_id,
            protocol.protocol_version == old(protocol).protocol_version,
            protocol.constants@ == old(protocol).constants@,
            protocol.types@ == old(protocol).types@,
            old_procs == old(protocol).procedures@,
            pv == spec_proc_variants(ed.variants@),
            forall|b: int| 0 <= b < tprefix@.len() ==> tprefix@[b] < 128,
            forall|b: int| 0 <= b < "_args".spec_bytes().len() ==> "_args".spec_bytes()[b] < 128,
            forall|b: int| 0 <= b < "_ret".spec_bytes().len() ==> "_ret".spec_bytes()[b] < 128,
            forall|q: int|
                0 <= q < pv.len() ==> (#[trigger] collected@[q]).0@ == pv[q].name@ && pv[q].value
                    == Some(ConstValue::Int(collected@[q].1)) && (forall|b: int|
                    0 <= b < encode_utf8(collected@[q].0@).len() ==> encode_utf8(
                        collected@[q].0@,
                    )[b] < 128),
            protocol.procedures@.len() == old_procs.len() + k,
            protocol.procedures@.subrange(0, old_procs.len() as int) == old_procs,
            forall|q: int|
                0 <= q < k ==> spec_proc_matches(
                    #[trigger] protocol.procedures@[old_procs.len() + q],
                    pv[q],
                    protocol.types@,
                    pprefix@,
                    tprefix@,
                ),
        decreases cnt - k,
    {
        let pname = collected[k].0.clone();
        let num = collected[k].1;
        let vb: &[u8] = pname.as_str().as_bytes();
        let base_start = match tag_at(vb, 0, pprefix) {
            Some(p) => p,
            None => 0,
        };
        proof {
            assert(vb@.skip(base_start as int) =~= spec_strip_prefix(vb@, pprefix@));
        }
        let mut base: Vec<u8> = Vec::new();
        let mut t = base_start;
        while t < vb.len()
            invariant
                base_start <= t <= vb@.len(),
                vb@ == encode_utf8(pname@),
                forall|b: int| 0 <= b < vb@.len() ==> vb@[b] < 128,
                base@ == vb@.subrange(base_start as int, t as int).map_values(
                    |b: u8| ascii_lower_byte(b),
                ),
                forall|b: int| 0 <= b < base@.len() ==> base@[b] < 128,
            decreases vb@.len() - t,
        {
            let b = vb[t];
            let low: u8 = if 65 <= b && b <= 90 {
                b + 32
            } else {
                b
            };
            base.push(low);
            proof {
                assert(base@ =~= vb@.subrange(base_start as int, t + 1).map_values(
                    |b: u8| ascii_lower_byte(b),
                ));
            }
            t = t + 1;
        }
        proof {
            assert(vb@.subrange(base_start as int, vb@.len() as int) =~= vb@.skip(
                base_start as int,
            ));
            assert(base@ == spec_lower_bytes(spec_strip_prefix(encode_utf8(pname@), pprefix@)));
        }
        let mut an: Vec<u8> = Vec::new();
        an.extend_from_slice(tprefix);
        an.extend_from_slice(base.as_slice());
        an.extend_from_slice("_args".as_bytes());
        let mut rn: Vec<u8> = Vec::new();
        rn.extend_from_slice(tprefix);
        rn.extend_from_slice(base.as_slice());
        rn.extend_from_slice("_ret".as_bytes());
        proof {
            assert(an@ =~= tprefix@ + base@ + "_args".spec_bytes());
            assert(rn@ =~= tprefix@ + base@ + "_ret".spec_bytes());
            assert forall|b: int| 0 <= b < an@.len() implies an@[b] < 128 by {
                if b < tprefix@.len() {
                    assert(an@[b] == tprefix@[b]);
                } else if b < tprefix@.len() + base@.len() {
                    assert(an@[b] == base@[b - tprefix@.len()]);
                } else {
                    assert(an@[b] == "_args".spec_bytes()[b - tprefix@.len() - base@.len()]);
                }
            }
            assert forall|b: int| 0 <= b < rn@.len() implies rn@[b] < 128 by {
                if b < tprefix@.len() {
                    assert(rn@[b] == tprefix@[b]);
                } else if b < tprefix@.len() + base@.len() {
                    assert(rn@[b] == base@[b - tprefix@.len()]);
                } else {
                    assert(rn@[b] == "_ret".spec_bytes()[b - tprefix@.len() - base@.len()]);
                }
            }
        }
        let args = if has_struct(&protocol.types, an.as_slice()) {
            proof {
                crate::codec::lemma_ascii_encode_bytes(an@);
            }
            Some(ascii_to_string(an))
        } else {
            None
        };
        let ret = if has_struct(&protocol.types, rn.as_slice()) {
            proof {
                crate::codec::lemma_ascii_encode_bytes(rn@);
            }
            Some(ascii_to_string(rn))
        } else {
            None
        };
        let number: u32 = #[verifier::truncate] (num as u32);
        protocol.procedures.push(
            Procedure { name: pname, number, args, ret, priority: Priority::Low },
        );
        proof {
            assert(protocol.procedures@.subrange(0, old_procs.len() as int) =~= old_procs);
            assert(spec_proc_matches(
                protocol.procedures@[old_procs.len() + k],
                pv[k as int],
                protocol.types@,
                pprefix@,
                tprefix@,
            ));
        }
        k = k + 1;
    }
}

/// The constant and type definitions `cs` and `ts` read from `from`
/// in some interleaving `kinds` — `true` for a constant — each after
/// leading whitespace, ending at `to`. Nothing else stands between
/// them.
pub open spec fn spec_defs_seq(
    s: Seq<u8>,
    from: int,
    to: int,
    cs: Seq<Constant>,
    ts: Seq<TypeDef>,
    kinds: Seq<bool>,
) -> bool
    decreases kinds.len(),
{
    if kinds.len() == 0 {
        to == from && cs.len() == 0 && ts.len() == 0
    } else if kinds.last() {
        cs.len() > 0 && exists|m: int|
            #![trigger spec_const_def_at(s, spec_skip_ws(s, m), cs.last(), to)]
            (spec_defs_seq(s, from, m, cs.drop_last(), ts, kinds.drop_last())
                && spec_const_def_at(s, spec_skip_ws(s, m), cs.last(), to))
    } else {
        ts.len() > 0 && exists|m: int|
            #![trigger spec_type_def_at(s, spec_skip_ws(s, m), ts.last(), to)]
            (spec_defs_seq(s, from, m, cs, ts.drop_last(), kinds.drop_last())
                && spec_type_def_at(s, spec_skip_ws(s, m), ts.last(), to))
    }
}

/// The whole input is covered by the definitions read into `cs` and
/// `ts`: some interleaving of them parses from the start, and only
/// whitespace follows.
pub open spec fn spec_protocol_covers(s: Seq<u8>, cs: Seq<Constant>, ts: Seq<TypeDef>) -> bool {
    exists|kinds: Seq<bool>, pend: int|
        #![trigger spec_defs_seq(s, 0, pend, cs, ts, kinds)]
        (spec_defs_seq(s, 0, pend, cs, ts, kinds) && spec_skip_ws(s, pend) >= s.len())
}

/// A definition — constant or type — can be read at `pos`.
pub open spec fn spec_def_ok(s: Seq<u8>, pos: int) -> bool {
    spec_const_def_ok(s, pos) || spec_type_def_ok(s, pos)
}

/// Where the definition read at `pos` ends, constants tried first.
pub open spec fn spec_def_end(s: Seq<u8>, pos: int) -> int {
    if spec_const_def_ok(s, pos) {
        spec_const_def_end(s, pos)
    } else {
        spec_type_def_end(s, pos)
    }
}

/// Where the run of definitions readable from `p` — each after
/// leading whitespace — ends; the fuel bounds the recursion and
/// exceeds any possible number of definitions.
pub open spec fn spec_defs_run_end(s: Seq<u8>, p: int, fuel: nat) -> int
    decreases fuel,
{
    if fuel > 0 && 0 <= p <= s.len() && spec_skip_ws(s, p) < s.len() && spec_def_ok(
        s,
        spec_skip_ws(s, p),
    ) {
        spec_defs_run_end(s, spec_def_end(s, spec_skip_ws(s, p)), (fuel - 1) as nat)
    } else {
        p
    }
}

/// A whole protocol definition can be read: the longest run of
/// definitions covers everything but trailing whitespace.
pub open spec fn spec_protocol_ok(s: Seq<u8>) -> bool {
    spec_skip_ws(s, spec_defs_run_end(s, 0, (s.len() + 1) as nat)) >= s.len()
}

/// Parse a whole protocol definition: a sequence of constant and type
/// definitions, then the metadata and procedure passes over what was
/// read. Fails at the first text that is neither whitespace nor a
/// definition.
#[verifier::rlimit(100)]
pub fn protocol_parser(s: &[u8]) -> (r: Result<Protocol, ParseError>)
    ensures
        r is Ok <==> spec_protocol_ok(s@),
        r matches Ok(proto) ==> spec_protocol_covers(s@, proto.constants@, proto.types@),
        r matches Ok(proto) ==> {
            let m = spec_meta_fold(proto.constants@, "remote"@, None, None);
            &&& (proto.name@, proto.program_id, proto.protocol_version) == m
            &&& ({
                let pr = spec_proc_prefixes(m.0);
                match spec_first_enum_named(proto.types@, pr.0) {
                    None => proto.procedures@.len() == 0,
                    Some(ed) => {
                        let pv = spec_proc_variants(ed.variants@);
                        &&& proto.procedures@.len() == pv.len()
                        &&& forall|j: int|
                            0 <= j < pv.len() ==> spec_proc_matches(
                                #[trigger] proto.procedures@[j],
                                pv[j],
                                proto.types@,
                                pr.1,
                                pr.2,
                            )
                    },
                }
            })
        },
{
    let mut protocol = Protocol::new("remote");
    proof {
        reveal_strlit("remote");
    }
    let ghost mut kinds: Seq<bool> = Seq::<bool>::empty();
    let ghost fuel0 = (s@.len() + 1) as nat;
    let ghost mut f: nat = fuel0;
    proof {
        assert(protocol.constants@ =~= Seq::<Constant>::empty());
        assert(protocol.types@ =~= Seq::<TypeDef>::empty());
    }
    let mut p: usize = 0;
    loop
        invariant_except_break
            p <= s@.len(),
            protocol.name@ == "remote"@,
            protocol.program_id is None,
            protocol.protocol_version is None,
            protocol.procedures@.len() == 0,
            spec_defs_seq(s@, 0, p as int, protocol.constants@, protocol.types@, kinds),
            f >= s@.len() - p + 1,
            fuel0 == (s@.len() + 1) as nat,
            spec_defs_run_end(s@, 0, fuel0) == spec_defs_run_end(s@, p as int, f),
        ensures
            p <= s@.len(),
            protocol.name@ == "remote"@,
            protocol.program_id is None,
            protocol.protocol_version is None,
            protocol.procedures@.len() == 0,
            spec_defs_seq(s@, 0, p as int, protocol.constants@, protocol.types@, kinds),
            spec_skip_ws(s@, p as int) >= s@.len(),
            spec_defs_run_end(s@, 0, fuel0) == p as int,
        decreases s@.len() - p,
    {
        let ghost m = p as int;
        let ghost cs0 = protocol.constants@;
        let ghost ts0 = protocol.types@;
        let ghost ks0 = kinds;
        let q = skip_ws(s, p);
        if q >= s.len() {
            proof {
                assert(spec_defs_run_end(s@, p as int, f) == p as int);
            }
            break ;
        }
        match const_def(s, q) {
            Ok((c, p2)) => {
                protocol.constants.push(c);
                proof {
                    kinds = kinds.push(true);
                    assert(kinds.drop_last() =~= ks0);
                    assert(kinds.last());
                    assert(protocol.constants@.drop_last() =~= cs0);
                    assert(protocol.constants@.last() == c);
                    assert(spec_const_def_at(
                        s@,
                        spec_skip_ws(s@, m),
                        protocol.constants@.last(),
                        p2 as int,
                    ));
                    assert(spec_defs_seq(
                        s@,
                        0,
                        p2 as int,
                        protocol.constants@,
                        protocol.types@,
                        kinds,
                    ));
                    assert(spec_defs_run_end(s@, m, f) == spec_defs_run_end(
                        s@,
                        p2 as int,
                        (f - 1) as nat,
                    ));
                    f = (f - 1) as nat;
                }
                p = p2;
                continue ;
            },
            Err(_) => {},
        }
        match type_def(s, q) {
            Ok((t, p2)) => {
                protocol.types.push(t);
                proof {
                    kinds = kinds.push(false);
                    assert(kinds.drop_last() =~= ks0);
                    assert(!kinds.last());
                    assert(protocol.types@.drop_last() =~= ts0);
                    assert(protocol.types@.last() == t);
                    assert(spec_type_def_at(
                        s@,
                        spec_skip_ws(s@, m),
                        protocol.types@.last(),
                        p2 as int,
                    ));
                    assert(spec_defs_seq(
                        s@,
                        0,
                        p2 as int,
                        protocol.constants@,
                        protocol.types@,
                        kinds,
                    ));
                    assert(spec_defs_run_end(s@, m, f) == spec_defs_run_end(
                        s@,
                        p2 as int,
                        (f - 1) as nat,
                    ));
                    f = (f - 1) as nat;
                }
                p = p2;
            },
            Err(e) => {
                proof {
                    assert(spec_defs_run_end(s@, p as int, f) == p as int);
                    assert(!spec_protocol_ok(s@));
                }
                return Err(e);
            },
        }
    }
    let ghost pend = p as int;
    let ghost cs = protocol.constants@;
    let ghost ts = protocol.types@;
    extract_protocol_metadata(&mut protocol);
    extract_procedures(&mut protocol);
    proof {
        assert(spec_defs_seq(s@, 0, pend, protocol.constants@, protocol.types@, kinds));
        assert(spec_protocol_covers(s@, protocol.constants@, protocol.types@));
        assert(protocol.procedures@.subrange(0, 0) =~= Seq::<Procedure>::empty());
        let m = spec_meta_fold(cs, "remote"@, Option::<u32>::None, Option::<u32>::None);
        let pr = spec_proc_prefixes(m.0);
        match spec_first_enum_named(ts, pr.0) {
            Option::Some(ed) => {
                let pv2 = spec_proc_variants(ed.variants@);
                assert forall|j: int| 0 <= j < pv2.len() implies spec_proc_matches(
                    #[trigger] protocol.procedures@[j],
                    pv2[j],
                    ts,
                    pr.1,
                    pr.2,
                ) by {
                    assert(spec_proc_matches(protocol.procedures@[0 + j], pv2[j], ts, pr.1, pr.2));
                }
            },
            Option::None => {},
        }
    }
    Ok(protocol)
}

/// Parse protocol definition text: comments and directive lines are
/// stripped first; the definitions read from the stripped text cover
/// all of it, as [`spec_protocol_covers`] states; and the metadata
/// and procedure table of the result are exactly what the post-passes
/// make of what was read.
pub fn parse_protocol(input: &str) -> (r: Result<Protocol, ParseError>)
    ensures
        r is Ok <==> spec_protocol_ok(spec_remove_comments(input.spec_bytes())),
        r matches Ok(proto) ==> spec_protocol_covers(
            spec_remove_comments(input.spec_bytes()),
            proto.constants@,
            proto.types@,
        ),
        r matches Ok(proto) ==> {
            let m = spec_meta_fold(proto.constants@, "remote"@, None, None);
            &&& (proto.name@, proto.program_id, proto.protocol_version) == m
            &&& ({
                let pr = spec_proc_prefixes(m.0);
                match spec_first_enum_named(proto.types@, pr.0) {
                    None => proto.procedures@.len() == 0,
                    Some(ed) => {
                        let pv = spec_proc_variants(ed.variants@);
                        &&& proto.procedures@.len() == pv.len()
                        &&& forall|j: int|
                            0 <= j < pv.len() ==> spec_proc_matches(
                                #[trigger] proto.procedures@[j],
                                pv[j],
                                proto.types@,
                                pr.1,
                                pr.2,
                            )
                    },
                }
            })
        },
{
    let stripped = remove_comments(input.as_bytes());
    protocol_parser(stripped.as_slice())
}

/// Every character of the sequence is ASCII.
pub open spec fn is_ascii_chars_of(s: Seq<char>) -> bool {
    vstd::utf8::is_ascii_chars(s)
}

/// An ASCII string's bytes are all below 128.
proof fn lemma_ascii_str_bytes(s: Seq<char>)
    requires
        vstd::utf8::is_ascii_chars(s),
    ensures
        forall|i: int| 0 <= i < encode_utf8(s).len() ==> encode_utf8(s)[i] < 128,
{
    vstd::utf8::is_ascii_chars_encode_utf8(s);
}

} // verus!
