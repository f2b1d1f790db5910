//! Facts the library guarantees across its functions, each proved once
//! and for all inputs.

use vstd::prelude::*;

use crate::header::{spec_row_base, spec_row_width, DatabaseHeader};
use crate::matcher::{
    spec_category_pattern, spec_is_single, spec_matches_category, spec_record_addresses,
    spec_record_networks, spec_span_end, CATEGORY_COUNT,
};
use crate::record::{spec_read_row, spec_resolve_field};
use crate::text::{dash, spec_contains};
use crate::view::spec_read_u32;

verus! {

/// A row is `column_count * 4` bytes wide.
pub proof fn lemma_row_width(h: DatabaseHeader)
    ensures
        spec_row_width(h) == h.column_count * 4,
{
}

/// A row whose byte range runs past the end of the file is absent: no
/// read ever touches bytes outside the file.
pub proof fn lemma_truncated_row_is_absent(m: Seq<u8>, h: DatabaseHeader, i: int)
    requires
        spec_row_base(h, i) - 1 + spec_row_width(h) > m.len(),
    ensures
        spec_read_row(m, h, i) is None,
{
}

/// A record covering exactly one address is kept as that single
/// address and contributes no range to any bucket.
pub proof fn lemma_single_span_is_address_only(
    ip_from: u32,
    ip_to: u32,
    fields: (Seq<char>, Seq<char>, Seq<char>),
    c: int,
)
    requires
        ip_to == ip_from + 1,
    ensures
        spec_record_networks(ip_from, ip_to, fields, c) == Seq::<(u64, u64)>::empty(),
        spec_matches_category(fields, c) ==> spec_record_addresses(ip_from, ip_to, fields, c)
            == seq![ip_from as u64],
{
}

/// A record covering more than one address is kept as the inclusive
/// range `[ip_from, ip_to - 1]` and contributes no single address.
pub proof fn lemma_wide_span_is_range_only(
    ip_from: u32,
    ip_to: u32,
    fields: (Seq<char>, Seq<char>, Seq<char>),
    c: int,
)
    requires
        ip_to > ip_from + 1,
    ensures
        spec_record_addresses(ip_from, ip_to, fields, c) == Seq::<u64>::empty(),
        spec_matches_category(fields, c) ==> spec_record_networks(ip_from, ip_to, fields, c)
            == seq![(ip_from as u64, (ip_to - 1) as u64)],
{
    assert(spec_span_end(ip_to) == ip_to - 1);
    assert(!spec_is_single(ip_from, ip_to));
}

/// A record whose fields match two distinct patterns lands in both
/// corresponding buckets, with the same representation in each.
pub proof fn lemma_multiple_categories(
    ip_from: u32,
    ip_to: u32,
    fields: (Seq<char>, Seq<char>, Seq<char>),
    c1: int,
    c2: int,
)
    requires
        c1 != c2,
        spec_matches_category(fields, c1),
        spec_matches_category(fields, c2),
    ensures
        spec_is_single(ip_from, ip_to) ==> spec_record_addresses(ip_from, ip_to, fields, c1)
            == seq![ip_from as u64] && spec_record_addresses(ip_from, ip_to, fields, c2)
            == seq![ip_from as u64],
        !spec_is_single(ip_from, ip_to) ==> spec_record_networks(ip_from, ip_to, fields, c1)
            == seq![(ip_from as u64, spec_span_end(ip_to) as u64)] && spec_record_networks(
            ip_from,
            ip_to,
            fields,
            c2,
        ) == seq![(ip_from as u64, spec_span_end(ip_to) as u64)],
{
}

/// A field whose pointer is `0`, or addresses a byte at or beyond the
/// end of the file, resolves to the sentinel `"-"`.
pub proof fn lemma_absent_pointer_resolves_dash(m: Seq<u8>, row_base: int, position: int)
    requires
        position > 0,
        spec_read_u32(m, row_base + 4 * (position - 1)) == 0 || spec_read_u32(
            m,
            row_base + 4 * (position - 1),
        ) >= m.len(),
    ensures
        spec_resolve_field(m, row_base, position) == dash(),
{
}

/// The sentinel `"-"` contains no category pattern: every pattern is
/// longer than the sentinel itself.
pub proof fn lemma_dash_matches_no_pattern(c: int)
    requires
        0 <= c < CATEGORY_COUNT,
    ensures
        !spec_contains(dash(), spec_category_pattern(c)),
{
    reveal_strlit("VPN");
    reveal_strlit("TOR");
    reveal_strlit("PUB");
    reveal_strlit("WEB");
    reveal_strlit("RES");
    reveal_strlit("DCH");
    reveal_strlit("COM");
    reveal_strlit("EDU");
    reveal_strlit("GOV");
    reveal_strlit("ISP");
    reveal_strlit("MOB");
    reveal_strlit("SPAM");
    reveal_strlit("SCANNER");
    reveal_strlit("BOTNET");
    reveal_strlit("MALWARE");
    reveal_strlit("PHISHING");
    reveal_strlit("BOGON");
    assert(spec_category_pattern(c).len() >= 3);
}

/// A record all of whose fields are the sentinel `"-"` contributes
/// nothing to any bucket.
pub proof fn lemma_unresolved_record_matches_nothing(ip_from: u32, ip_to: u32, c: int)
    requires
        0 <= c < CATEGORY_COUNT,
    ensures
        spec_record_addresses(ip_from, ip_to, (dash(), dash(), dash()), c) == Seq::<u64>::empty(),
        spec_record_networks(ip_from, ip_to, (dash(), dash(), dash()), c) == Seq::<
            (u64, u64),
        >::empty(),
{
    lemma_dash_matches_no_pattern(c);
}

} // verus!
