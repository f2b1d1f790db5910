//! Header of the binary IP-classification database and its row geometry.
//!
//! The file starts with a fixed header: the database type at byte 0, the
//! column count at byte 1, the IPv4 record count as a little-endian `u32`
//! at bytes 5..9, and the 1-based byte offset of the IPv4 row table as a
//! little-endian `u32` at bytes 9..13.

use vstd::prelude::*;

verus! {

/// Number of leading bytes a file must have for its header to be readable.
pub const HEADER_LEN: usize = 13;

/// The fixed header decoded once when a database is opened.
#[derive(Clone, Copy, PartialEq, Eq, Structural, Debug)]
pub struct DatabaseHeader {
    /// Selects the column layout of the row table.
    pub database_type: u8,
    /// Number of 4-byte columns in one row.
    pub column_count: u8,
    /// Declared number of IPv4 records.
    pub ipv4_count: u32,
    /// 1-based byte offset of the first row.
    pub ipv4_base_address: u32,
}

/// The `u32` encoded little-endian in the four bytes `m[pos..pos + 4]`.
pub open spec fn le_u32_at(m: Seq<u8>, pos: int) -> u32
    recommends
        0 <= pos,
        pos + 4 <= m.len(),
{
    (m[pos] + m[pos + 1] * 0x100 + m[pos + 2] * 0x1_0000 + m[pos + 3] * 0x100_0000) as u32
}

/// Reads the little-endian `u32` at byte position `pos`.
pub fn read_le_u32(mem: &[u8], pos: usize) -> (r: u32)
    requires
        pos + 4 <= mem@.len(),
    ensures
        r == le_u32_at(mem@, pos as int),
{
    let b0 = mem[pos] as u32;
    let b1 = mem[pos + 1] as u32;
    let b2 = mem[pos + 2] as u32;
    let b3 = mem[pos + 3] as u32;
    b0 + b1 * 0x100 + b2 * 0x1_0000 + b3 * 0x100_0000
}

/// The header a well-formed file of at least `HEADER_LEN` bytes carries.
pub open spec fn spec_header(m: Seq<u8>) -> DatabaseHeader
    recommends
        m.len() >= HEADER_LEN,
{
    DatabaseHeader {
        database_type: m[0],
        column_count: m[1],
        ipv4_count: le_u32_at(m, 5),
        ipv4_base_address: le_u32_at(m, 9),
    }
}

/// Byte width of one row: four bytes per column.
pub open spec fn spec_row_width(h: DatabaseHeader) -> int {
    h.column_count * 4
}

/// 1-based byte offset of the row with the given index.
pub open spec fn spec_row_base(h: DatabaseHeader, index: int) -> int {
    h.ipv4_base_address + index * spec_row_width(h)
}

impl DatabaseHeader {
    /// Decodes the header, or returns `None` when the file is too short to
    /// hold one. Implausible field values are not rejected here; every
    /// later read checks its own bounds.
    pub fn parse(mem: &[u8]) -> (r: Option<DatabaseHeader>)
        ensures
            match r {
                Some(h) => mem@.len() >= HEADER_LEN && h == spec_header(mem@),
                None => mem@.len() < HEADER_LEN,
            },
    {
        if mem.len() < HEADER_LEN {
            return None;
        }
        Some(DatabaseHeader {
            database_type: mem[0],
            column_count: mem[1],
            ipv4_count: read_le_u32(mem, 5),
            ipv4_base_address: read_le_u32(mem, 9),
        })
    }
}

} // verus!
