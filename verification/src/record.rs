//! Decoding one fixed-width row: its address span and its three
//! pointer-indexed string fields.
//!
//! A row occupies `column_count * 4` bytes; its first four bytes are
//! `ip_from` and its last four are `ip_to`, both little-endian. `ip_to`
//! is an exclusive upper bound. Which column carries the proxy-type,
//! usage-type and threat-type field depends on the database type; a
//! position of `0` means the field is absent for that layout.

use vstd::prelude::*;

use crate::header::{le_u32_at, read_le_u32, spec_row_base, spec_row_width, DatabaseHeader};
use crate::text::{dash, dash_string, to_upper, upper_of};
use crate::view::{read_string, read_u32, spec_read_string, spec_read_u32};

verus! {

/// The address span of the row with the given index, or `None` when the
/// row's byte range does not fit the mapped region (a truncated file, an
/// index at or past the declared count, or a layout too narrow to hold
/// the two address columns).
pub open spec fn spec_read_row(m: Seq<u8>, h: DatabaseHeader, index: int) -> Option<(u32, u32)> {
    let width = spec_row_width(h);
    let base = spec_row_base(h, index);
    if width >= 4 && base >= 1 && base - 1 + width <= m.len() {
        Some((le_u32_at(m, base - 1), le_u32_at(m, base - 1 + width - 4)))
    } else {
        None
    }
}

/// Reads the `(ip_from, ip_to)` span of one row, or `None` when the row
/// lies outside the mapped region.
pub fn read_row(mem: &[u8], header: &DatabaseHeader, index: u32) -> (r: Option<(u32, u32)>)
    ensures
        r == spec_read_row(mem@, *header, index as int),
{
    let width = header.column_count as u64 * 4;
    assert(index as u64 * width <= 0xFFFF_FFFFu64 * 1020) by (nonlinear_arith)
        requires
            index as u64 <= 0xFFFF_FFFFu64,
            width <= 1020,
    ;
    let base = header.ipv4_base_address as u64 + index as u64 * width;
    let n = mem.len() as u64;
    if width < 4 || base < 1 || base - 1 > n || n - (base - 1) < width {
        return None;
    }
    let start = (base - 1) as usize;
    let ip_from = read_le_u32(mem, start);
    let ip_to = read_le_u32(mem, start + (width as usize) - 4);
    Some((ip_from, ip_to))
}

/// The three semantic fields a row carries.
#[derive(Clone, Copy, PartialEq, Eq, Structural, Debug)]
pub enum FieldKind {
    /// The proxy-type field.
    Proxy,
    /// The usage-type field.
    Usage,
    /// The threat-type field.
    Threat,
}

/// 1-based column position of a field for the given database type, `0`
/// when that layout does not carry the field. Database types run from 0
/// to 12; anything higher carries no field.
pub open spec fn spec_field_position(kind: FieldKind, database_type: u8) -> u8 {
    match kind {
        FieldKind::Proxy => if 2 <= database_type && database_type <= 12 {
            2
        } else {
            0
        },
        FieldKind::Usage => if 6 <= database_type && database_type <= 12 {
            8
        } else {
            0
        },
        FieldKind::Threat => if 9 <= database_type && database_type <= 12 {
            12
        } else {
            0
        },
    }
}

/// Looks up the column position of a field for a database type.
pub fn field_position(kind: FieldKind, database_type: u8) -> (r: u8)
    ensures
        r == spec_field_position(kind, database_type),
{
    match kind {
        FieldKind::Proxy => if 2 <= database_type && database_type <= 12 {
            2
        } else {
            0
        },
        FieldKind::Usage => if 6 <= database_type && database_type <= 12 {
            8
        } else {
            0
        },
        FieldKind::Threat => if 9 <= database_type && database_type <= 12 {
            12
        } else {
            0
        },
    }
}

/// The value a field at `position` of the row based at the 1-based
/// `row_base` resolves to: the upper-cased string behind its pointer, or
/// the sentinel `"-"` when the position is absent or the pointer is `0`
/// or out of range.
pub open spec fn spec_resolve_field(m: Seq<u8>, row_base: int, position: int) -> Seq<char> {
    if position <= 0 {
        dash()
    } else {
        let pointer = spec_read_u32(m, row_base + 4 * (position - 1)) as int;
        if 0 < pointer && pointer < m.len() {
            upper_of(spec_read_string(m, pointer + 1))
        } else {
            dash()
        }
    }
}

/// Resolves one string field of the row based at the 1-based `row_base`.
/// Never fails: absent or invalid data degrades to `"-"`.
pub fn read_field(mem: &[u8], row_base: u64, position: u8) -> (r: String)
    requires
        row_base + 4 * 254 <= u64::MAX,
    ensures
        r@ == spec_resolve_field(mem@, row_base as int, position as int),
{
    if position == 0 {
        return dash_string();
    }
    let pointer_offset = row_base + 4 * (position as u64 - 1);
    let pointer = read_u32(mem, pointer_offset) as u64;
    if pointer > 0 && pointer < mem.len() as u64 {
        let s = read_string(mem, pointer + 1);
        to_upper(s.as_str())
    } else {
        dash_string()
    }
}

/// The views of the three resolved fields of one row, in the order
/// proxy-type, usage-type, threat-type.
pub open spec fn spec_record_fields(m: Seq<u8>, h: DatabaseHeader, index: int) -> (
    Seq<char>,
    Seq<char>,
    Seq<char>,
) {
    let base = spec_row_base(h, index);
    (
        spec_resolve_field(m, base, spec_field_position(FieldKind::Proxy, h.database_type) as int),
        spec_resolve_field(m, base, spec_field_position(FieldKind::Usage, h.database_type) as int),
        spec_resolve_field(m, base, spec_field_position(FieldKind::Threat, h.database_type) as int),
    )
}

/// Resolves the three string fields of one row. Rows outside the mapped
/// region simply resolve to sentinels, since every pointer read checks
/// its own bounds.
pub fn read_record(mem: &[u8], header: &DatabaseHeader, index: u32) -> (r: (String, String, String))
    ensures
        (r.0@, r.1@, r.2@) == spec_record_fields(mem@, *header, index as int),
{
    let width = header.column_count as u64 * 4;
    assert(index as u64 * width <= 0xFFFF_FFFFu64 * 1020) by (nonlinear_arith)
        requires
            index as u64 <= 0xFFFF_FFFFu64,
            width <= 1020,
    ;
    let base = header.ipv4_base_address as u64 + index as u64 * width;
    let proxy = read_field(mem, base, field_position(FieldKind::Proxy, header.database_type));
    let usage = read_field(mem, base, field_position(FieldKind::Usage, header.database_type));
    let threat = read_field(mem, base, field_position(FieldKind::Threat, header.database_type));
    (proxy, usage, threat)
}

} // verus!
