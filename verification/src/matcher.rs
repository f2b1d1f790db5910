//! The fixed category table and the classification of one record.
//!
//! Each category pairs a pattern with a bucket name. A record belongs to
//! a bucket when the pattern occurs as a substring of any of its three
//! resolved fields; patterns are not mutually exclusive, so one record
//! may land in several buckets. A record whose span covers exactly one
//! address is kept as that address, any other span as the inclusive
//! range `[ip_from, ip_to - 1]`.

use vstd::prelude::*;

use crate::text::{spec_contains, str_contains};

verus! {

/// Number of configured categories.
pub const CATEGORY_COUNT: usize = 17;

/// The substring pattern of the category with the given index.
pub open spec fn spec_category_pattern(i: int) -> Seq<char> {
    if i == 0 {
        "VPN"@
    } else if i == 1 {
        "TOR"@
    } else if i == 2 {
        "PUB"@
    } else if i == 3 {
        "WEB"@
    } else if i == 4 {
        "RES"@
    } else if i == 5 {
        "DCH"@
    } else if i == 6 {
        "COM"@
    } else if i == 7 {
        "EDU"@
    } else if i == 8 {
        "GOV"@
    } else if i == 9 {
        "ISP"@
    } else if i == 10 {
        "MOB"@
    } else if i == 11 {
        "SPAM"@
    } else if i == 12 {
        "SCANNER"@
    } else if i == 13 {
        "BOTNET"@
    } else if i == 14 {
        "MALWARE"@
    } else if i == 15 {
        "PHISHING"@
    } else {
        "BOGON"@
    }
}

/// The bucket name of the category with the given index.
pub open spec fn spec_category_name(i: int) -> Seq<char> {
    if i == 0 {
        "ip2proxy_vpn"@
    } else if i == 1 {
        "ip2proxy_tor"@
    } else if i == 2 {
        "ip2proxy_pub"@
    } else if i == 3 {
        "ip2proxy_web"@
    } else if i == 4 {
        "ip2proxy_res"@
    } else if i == 5 {
        "ip2proxy_dch"@
    } else if i == 6 {
        "ip2proxy_com"@
    } else if i == 7 {
        "ip2proxy_edu"@
    } else if i == 8 {
        "ip2proxy_gov"@
    } else if i == 9 {
        "ip2proxy_isp"@
    } else if i == 10 {
        "ip2proxy_mob"@
    } else if i == 11 {
        "ip2proxy_spam"@
    } else if i == 12 {
        "ip2proxy_scanner"@
    } else if i == 13 {
        "ip2proxy_botnet"@
    } else if i == 14 {
        "ip2proxy_malware"@
    } else if i == 15 {
        "ip2proxy_phishing"@
    } else {
        "ip2proxy_bogon"@
    }
}

/// Returns the pattern of one category.
pub fn category_pattern(i: usize) -> (r: &'static str)
    requires
        i < CATEGORY_COUNT,
    ensures
        r@ == spec_category_pattern(i as int),
{
    match i {
        0 => "VPN",
        1 => "TOR",
        2 => "PUB",
        3 => "WEB",
        4 => "RES",
        5 => "DCH",
        6 => "COM",
        7 => "EDU",
        8 => "GOV",
        9 => "ISP",
        10 => "MOB",
        11 => "SPAM",
        12 => "SCANNER",
        13 => "BOTNET",
        14 => "MALWARE",
        15 => "PHISHING",
        _ => "BOGON",
    }
}

/// Returns the bucket name of one category.
pub fn category_name(i: usize) -> (r: &'static str)
    requires
        i < CATEGORY_COUNT,
    ensures
        r@ == spec_category_name(i as int),
{
    match i {
        0 => "ip2proxy_vpn",
        1 => "ip2proxy_tor",
        2 => "ip2proxy_pub",
        3 => "ip2proxy_web",
        4 => "ip2proxy_res",
        5 => "ip2proxy_dch",
        6 => "ip2proxy_com",
        7 => "ip2proxy_edu",
        8 => "ip2proxy_gov",
        9 => "ip2proxy_isp",
        10 => "ip2proxy_mob",
        11 => "ip2proxy_spam",
        12 => "ip2proxy_scanner",
        13 => "ip2proxy_botnet",
        14 => "ip2proxy_malware",
        15 => "ip2proxy_phishing",
        _ => "ip2proxy_bogon",
    }
}

/// The last address a span actually covers: `ip_to` is exclusive, so
/// this is `ip_to - 1`, wrapping to the top of the address space when
/// `ip_to` is `0`.
pub open spec fn spec_span_end(ip_to: u32) -> u32 {
    if ip_to == 0 {
        0xFFFF_FFFFu32
    } else {
        (ip_to - 1) as u32
    }
}

/// True when the span covers exactly the single address `ip_from`.
pub open spec fn spec_is_single(ip_from: u32, ip_to: u32) -> bool {
    ip_from == spec_span_end(ip_to)
}

/// True when any of the three resolved fields contains the pattern of
/// category `i`.
pub open spec fn spec_matches_category(
    fields: (Seq<char>, Seq<char>, Seq<char>),
    i: int,
) -> bool {
    let pattern = spec_category_pattern(i);
    spec_contains(fields.0, pattern) || spec_contains(fields.1, pattern) || spec_contains(
        fields.2,
        pattern,
    )
}

/// The addresses one record contributes to the bucket of category `i`:
/// its single address when it matches and covers one address, nothing
/// otherwise.
pub open spec fn spec_record_addresses(
    ip_from: u32,
    ip_to: u32,
    fields: (Seq<char>, Seq<char>, Seq<char>),
    i: int,
) -> Seq<u64> {
    if spec_matches_category(fields, i) && spec_is_single(ip_from, ip_to) {
        seq![ip_from as u64]
    } else {
        Seq::empty()
    }
}

/// The ranges one record contributes to the bucket of category `i`: its
/// inclusive range when it matches and covers more than one address,
/// nothing otherwise.
pub open spec fn spec_record_networks(
    ip_from: u32,
    ip_to: u32,
    fields: (Seq<char>, Seq<char>, Seq<char>),
    i: int,
) -> Seq<(u64, u64)> {
    if spec_matches_category(fields, i) && !spec_is_single(ip_from, ip_to) {
        seq![(ip_from as u64, spec_span_end(ip_to) as u64)]
    } else {
        Seq::empty()
    }
}

/// Address list and range list of one bucket.
#[derive(Debug)]
pub struct ListData {
    /// Single addresses, widened to 64 bits.
    pub addresses: Vec<u64>,
    /// Inclusive `[start, end]` ranges, widened to 64 bits.
    pub networks: Vec<(u64, u64)>,
}

/// One empty pair of lists per category.
pub fn create_empty_lists() -> (r: Vec<ListData>)
    ensures
        r@.len() == CATEGORY_COUNT,
        forall|i: int|
            0 <= i < CATEGORY_COUNT ==> (#[trigger] r@[i]).addresses@ == Seq::<u64>::empty()
                && r@[i].networks@ == Seq::<(u64, u64)>::empty(),
{
    let mut r: Vec<ListData> = Vec::new();
    let mut i: usize = 0;
    while i < CATEGORY_COUNT
        invariant
            i <= CATEGORY_COUNT,
            r@.len() == i,
            forall|j: int|
                0 <= j < i ==> (#[trigger] r@[j]).addresses@ == Seq::<u64>::empty()
                    && r@[j].networks@ == Seq::<(u64, u64)>::empty(),
        decreases CATEGORY_COUNT - i,
    {
        r.push(ListData { addresses: Vec::new(), networks: Vec::new() });
        i = i + 1;
    }
    r
}

/// Adds one record's representation to the lists of every bucket whose
/// pattern occurs in one of the three resolved fields.
pub fn categorize(
    lists: &mut Vec<ListData>,
    ip_from: u32,
    ip_to: u32,
    fields: &(String, String, String),
)
    requires
        old(lists)@.len() == CATEGORY_COUNT,
    ensures
        final(lists)@.len() == CATEGORY_COUNT,
        forall|i: int|
            0 <= i < CATEGORY_COUNT ==> {
                let f = (fields.0@, fields.1@, fields.2@);
                (#[trigger] final(lists)@[i]).addresses@ == old(lists)@[i].addresses@
                    + spec_record_addresses(ip_from, ip_to, f, i) && final(lists)@[i].networks@
                    == old(lists)@[i].networks@ + spec_record_networks(ip_from, ip_to, f, i)
            },
{
    let span_end: u32 = if ip_to == 0 {
        0xFFFF_FFFFu32
    } else {
        ip_to - 1
    };
    let single: bool = ip_from == span_end;
    let mut i: usize = 0;
    while i < CATEGORY_COUNT
        invariant
            old(lists)@.len() == CATEGORY_COUNT,
            lists@.len() == CATEGORY_COUNT,
            i <= CATEGORY_COUNT,
            span_end == spec_span_end(ip_to),
            single == spec_is_single(ip_from, ip_to),
            forall|j: int|
                0 <= j < i ==> {
                    let f = (fields.0@, fields.1@, fields.2@);
                    (#[trigger] lists@[j]).addresses@ == old(lists)@[j].addresses@
                        + spec_record_addresses(ip_from, ip_to, f, j) && lists@[j].networks@
                        == old(lists)@[j].networks@ + spec_record_networks(ip_from, ip_to, f, j)
                },
            forall|j: int|
                i <= j < CATEGORY_COUNT ==> #[trigger] lists@[j] == old(lists)@[j],
        decreases CATEGORY_COUNT - i,
    {
        let pattern = category_pattern(i);
        let matched = str_contains(fields.0.as_str(), pattern) || str_contains(
            fields.1.as_str(),
            pattern,
        ) || str_contains(fields.2.as_str(), pattern);
        if matched {
            if single {
                lists[i].addresses.push(ip_from as u64);
            } else {
                lists[i].networks.push((ip_from as u64, span_end as u64));
            }
        }
        proof {
            let f = (fields.0@, fields.1@, fields.2@);
            if matched && single {
                assert(lists@[i as int].addresses@ =~= old(lists)@[i as int].addresses@
                    + spec_record_addresses(ip_from, ip_to, f, i as int));
                assert(lists@[i as int].networks@ =~= old(lists)@[i as int].networks@
                    + spec_record_networks(ip_from, ip_to, f, i as int));
            } else if matched {
                assert(lists@[i as int].addresses@ =~= old(lists)@[i as int].addresses@
                    + spec_record_addresses(ip_from, ip_to, f, i as int));
                assert(lists@[i as int].networks@ =~= old(lists)@[i as int].networks@
                    + spec_record_networks(ip_from, ip_to, f, i as int));
            } else {
                assert(lists@[i as int].addresses@ =~= old(lists)@[i as int].addresses@
                    + spec_record_addresses(ip_from, ip_to, f, i as int));
                assert(lists@[i as int].networks@ =~= old(lists)@[i as int].networks@
                    + spec_record_networks(ip_from, ip_to, f, i as int));
            }
        }
        i = i + 1;
    }
}

} // verus!
