//! Bounded reads over the mapped file: the 1-based `u32` read with its
//! absence sentinel, and the length-prefixed string read.
//!
//! Offsets handed around here follow the database's 1-based convention:
//! an offset of `o` names the byte at position `o - 1`, and `0` means
//! "absent". Every read checks its own bounds and degrades to a sentinel
//! (`0` for numbers, `"-"` for strings) instead of failing.

use vstd::prelude::*;
use vstd::utf8::{decode_utf8, valid_utf8};

use crate::header::{le_u32_at, read_le_u32};
use crate::text::{dash, dash_string, utf8_to_string};

verus! {

/// The `u32` a 1-based offset resolves to: `0` when the offset is `0` or
/// the four bytes would run past the end, else the little-endian value
/// at position `offset - 1`.
pub open spec fn spec_read_u32(m: Seq<u8>, offset: int) -> u32 {
    if offset <= 0 || offset + 3 > m.len() {
        0
    } else {
        le_u32_at(m, offset - 1)
    }
}

/// Reads the little-endian `u32` at the 1-based `offset`, returning `0`
/// when the offset is the absence sentinel or out of range.
pub fn read_u32(mem: &[u8], offset: u64) -> (r: u32)
    ensures
        r == spec_read_u32(mem@, offset as int),
{
    let n = mem.len() as u64;
    if offset == 0 || offset > n || n - offset < 3 {
        return 0;
    }
    read_le_u32(mem, (offset - 1) as usize)
}

/// The characters a 1-based offset resolves to: the sentinel `"-"` when
/// the offset is `0` or out of range, when the declared length runs past
/// the end, or when the bytes are not valid UTF-8; otherwise the decoded
/// string. The byte at `offset - 1` is the length, the string follows.
pub open spec fn spec_read_string(m: Seq<u8>, offset: int) -> Seq<char> {
    if offset <= 0 || offset > m.len() {
        dash()
    } else {
        let len = m[offset - 1] as int;
        if offset + len > m.len() {
            dash()
        } else {
            let bytes = m.subrange(offset, offset + len);
            if valid_utf8(bytes) {
                decode_utf8(bytes)
            } else {
                dash()
            }
        }
    }
}

/// Reads the length-prefixed string at the 1-based `offset`, substituting
/// `"-"` for anything absent, truncated or malformed.
pub fn read_string(mem: &[u8], offset: u64) -> (r: String)
    ensures
        r@ == spec_read_string(mem@, offset as int),
{
    let n = mem.len() as u64;
    if offset == 0 || offset > n {
        return dash_string();
    }
    let position = (offset - 1) as usize;
    let length = mem[position] as u64;
    if n - offset < length {
        return dash_string();
    }
    let start = position + 1;
    let end = start + length as usize;
    let bytes = &mem[start..end];
    match utf8_to_string(bytes) {
        Some(s) => s,
        None => dash_string(),
    }
}

} // verus!
