use proxy_lists::buckets::{create_empty_sets, insert_address, insert_network, merge_lists};
use proxy_lists::header::DatabaseHeader;
use proxy_lists::matcher::{categorize, create_empty_lists};
use proxy_lists::pipeline::{extract_proxy_ips, finalize_lists, process_range};

/// A type-2 database (only the proxy field, in column 2) with four
/// columns per row and every row pointing at the string `"VPN"`.
fn rows_file(rows: &[(u32, u32)]) -> Vec<u8> {
    let mut m = vec![0u8; 110];
    m[0] = 2; // database_type
    m[1] = 4; // column_count, so rows are 16 bytes wide
    m[5..9].copy_from_slice(&(rows.len() as u32).to_le_bytes());
    m[9..13].copy_from_slice(&14u32.to_le_bytes()); // base offset, 1-based
    for (i, &(from, to)) in rows.iter().enumerate() {
        let base = 13 + 16 * i;
        m[base..base + 4].copy_from_slice(&from.to_le_bytes());
        m[base + 4..base + 8].copy_from_slice(&100u32.to_le_bytes()); // proxy pointer
        m[base + 12..base + 16].copy_from_slice(&to.to_le_bytes());
    }
    m[100] = 3;
    m[101..104].copy_from_slice(b"VPN");
    m
}

#[test]
fn duplicates_collapse_and_lists_sort() {
    let m = rows_file(&[(50, 60), (10, 11), (50, 60), (5, 6)]);
    let out = extract_proxy_ips(&m).unwrap();
    assert_eq!(out.len(), 1);
    assert_eq!(out[0].0, "ip2proxy_vpn");
    assert_eq!(out[0].1.addresses, vec![5u64, 10u64]);
    assert_eq!(out[0].1.networks, vec![(50u64, 59u64)]);
}

#[test]
fn ranges_sort_by_start_then_end() {
    let m = rows_file(&[(50, 60), (20, 30), (20, 25)]);
    let out = extract_proxy_ips(&m).unwrap();
    assert_eq!(out[0].1.networks, vec![(20u64, 24u64), (20u64, 29u64), (50u64, 59u64)]);
}

#[test]
fn single_address_never_appears_as_range() {
    let m = rows_file(&[(10, 11)]);
    let out = extract_proxy_ips(&m).unwrap();
    assert_eq!(out[0].1.addresses, vec![10u64]);
    assert!(out[0].1.networks.is_empty());
}

#[test]
fn wide_span_never_appears_as_address() {
    let m = rows_file(&[(10, 13)]);
    let out = extract_proxy_ips(&m).unwrap();
    assert!(out[0].1.addresses.is_empty());
    assert_eq!(out[0].1.networks, vec![(10u64, 12u64)]);
}

#[test]
fn zero_ip_to_wraps_to_top_of_space() {
    let m = rows_file(&[(7, 0)]);
    let out = extract_proxy_ips(&m).unwrap();
    assert_eq!(out[0].1.networks, vec![(7u64, 4294967295u64)]);
}

#[test]
fn extraction_is_idempotent() {
    let m = rows_file(&[(50, 60), (10, 11), (5, 6)]);
    let a = extract_proxy_ips(&m).unwrap();
    let b = extract_proxy_ips(&m).unwrap();
    assert_eq!(a.len(), b.len());
    for (x, y) in a.iter().zip(b.iter()) {
        assert_eq!(x.0, y.0);
        assert_eq!(x.1.addresses, y.1.addresses);
        assert_eq!(x.1.networks, y.1.networks);
    }
}

#[test]
fn merge_order_does_not_change_output() {
    let m = rows_file(&[(50, 60), (10, 11), (50, 60), (5, 6)]);
    let h = DatabaseHeader::parse(&m).unwrap();

    let mut chunk_a = create_empty_lists();
    process_range(&m, &h, 0, 2, &mut chunk_a);
    let mut chunk_b = create_empty_lists();
    process_range(&m, &h, 2, 4, &mut chunk_b);

    let mut first = create_empty_sets();
    merge_lists(&mut first, &chunk_a);
    merge_lists(&mut first, &chunk_b);

    let mut second = create_empty_sets();
    merge_lists(&mut second, &chunk_b);
    merge_lists(&mut second, &chunk_a);

    let out1 = finalize_lists(first);
    let out2 = finalize_lists(second);
    assert_eq!(out1.len(), out2.len());
    for (x, y) in out1.iter().zip(out2.iter()) {
        assert_eq!(x.0, y.0);
        assert_eq!(x.1.addresses, y.1.addresses);
        assert_eq!(x.1.networks, y.1.networks);
    }
    assert_eq!(out1[0].1.addresses, vec![5u64, 10u64]);
    assert_eq!(out1[0].1.networks, vec![(50u64, 59u64)]);
}

#[test]
fn insert_address_keeps_sorted_unique() {
    let mut v: Vec<u64> = Vec::new();
    for x in [9u64, 3, 7, 3, 9, 1] {
        insert_address(&mut v, x);
    }
    assert_eq!(v, vec![1u64, 3, 7, 9]);
}

#[test]
fn insert_network_keeps_sorted_unique() {
    let mut v: Vec<(u64, u64)> = Vec::new();
    for p in [(5u64, 9u64), (2, 4), (5, 7), (2, 4)] {
        insert_network(&mut v, p);
    }
    assert_eq!(v, vec![(2u64, 4u64), (5u64, 7u64), (5u64, 9u64)]);
}

#[test]
fn categorize_fills_every_matching_bucket() {
    let mut lists = create_empty_lists();
    let fields = (String::from("VPN"), String::from("TORDCH"), String::from("-"));
    categorize(&mut lists, 8, 9, &fields);
    // VPN, TOR and DCH buckets each get the single address
    assert_eq!(lists[0].addresses, vec![8u64]); // vpn
    assert_eq!(lists[1].addresses, vec![8u64]); // tor
    assert_eq!(lists[5].addresses, vec![8u64]); // dch
    assert!(lists[2].addresses.is_empty());
    assert!(lists[0].networks.is_empty());
}

#[test]
fn empty_buckets_are_omitted() {
    let m = rows_file(&[]);
    let out = extract_proxy_ips(&m).unwrap();
    assert!(out.is_empty());
}
