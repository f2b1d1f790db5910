use proxy_lists::header::DatabaseHeader;
use proxy_lists::matcher::ListData;
use proxy_lists::output::{render_json, Output};
use proxy_lists::pipeline::extract_proxy_ips;
use proxy_lists::record::{field_position, read_row, FieldKind};
use proxy_lists::view::{read_string, read_u32};

/// The worked example: type 10, five columns, one record, base offset
/// 14 (1-based), usage field behind a pointer.
fn example_file(ip_to: u32, usage: &[u8]) -> Vec<u8> {
    let mut m = vec![0u8; 90];
    m[0] = 10; // database_type
    m[1] = 5; // column_count
    m[5..9].copy_from_slice(&1u32.to_le_bytes()); // ipv4_count
    m[9..13].copy_from_slice(&14u32.to_le_bytes()); // base offset, 1-based
    // row 0 occupies bytes 13..33
    m[13..17].copy_from_slice(&16909060u32.to_le_bytes()); // ip_from
    m[29..33].copy_from_slice(&ip_to.to_le_bytes()); // ip_to, exclusive
    // usage field is column 8 for type 10: pointer at 1-based 14 + 4*7
    m[41..45].copy_from_slice(&70u32.to_le_bytes());
    // length-prefixed string at 0-based 70
    m[70] = usage.len() as u8;
    m[71..71 + usage.len()].copy_from_slice(usage);
    m
}

#[test]
fn header_fields_decode() {
    let m = example_file(16909061, b"DCH");
    let h = DatabaseHeader::parse(&m).unwrap();
    assert_eq!(h.database_type, 10);
    assert_eq!(h.column_count, 5);
    assert_eq!(h.ipv4_count, 1);
    assert_eq!(h.ipv4_base_address, 14);
}

#[test]
fn header_needs_thirteen_bytes() {
    assert!(DatabaseHeader::parse(&[0u8; 12]).is_none());
    assert!(DatabaseHeader::parse(&[0u8; 13]).is_some());
}

#[test]
fn single_address_example() {
    let m = example_file(16909061, b"DCH");
    let out = extract_proxy_ips(&m).unwrap();
    assert_eq!(out.len(), 1);
    assert_eq!(out[0].0, "ip2proxy_dch");
    assert_eq!(out[0].1.addresses, vec![16909060u64]);
    assert_eq!(out[0].1.networks, Vec::<(u64, u64)>::new());
}

#[test]
fn range_example() {
    let m = example_file(16909070, b"DCH");
    let out = extract_proxy_ips(&m).unwrap();
    assert_eq!(out.len(), 1);
    assert_eq!(out[0].0, "ip2proxy_dch");
    assert_eq!(out[0].1.addresses, Vec::<u64>::new());
    assert_eq!(out[0].1.networks, vec![(16909060u64, 16909069u64)]);
}

#[test]
fn lowercase_field_is_uppercased_before_matching() {
    let m = example_file(16909061, b"dch");
    let out = extract_proxy_ips(&m).unwrap();
    assert_eq!(out.len(), 1);
    assert_eq!(out[0].0, "ip2proxy_dch");
}

#[test]
fn pattern_matches_as_substring() {
    let m = example_file(16909061, b"XDCHX");
    let out = extract_proxy_ips(&m).unwrap();
    assert_eq!(out.len(), 1);
    assert_eq!(out[0].0, "ip2proxy_dch");
}

#[test]
fn two_patterns_fill_two_buckets() {
    let m = example_file(16909061, b"VPNTOR");
    let out = extract_proxy_ips(&m).unwrap();
    assert_eq!(out.len(), 2);
    assert_eq!(out[0].0, "ip2proxy_vpn");
    assert_eq!(out[0].1.addresses, vec![16909060u64]);
    assert_eq!(out[1].0, "ip2proxy_tor");
    assert_eq!(out[1].1.addresses, vec![16909060u64]);
}

#[test]
fn invalid_utf8_field_matches_nothing() {
    let m = example_file(16909061, &[0xFF, 0xFE, 0xFD]);
    let out = extract_proxy_ips(&m).unwrap();
    assert!(out.is_empty());
}

#[test]
fn zero_pointer_resolves_to_dash() {
    let mut m = example_file(16909061, b"DCH");
    m[41..45].copy_from_slice(&0u32.to_le_bytes()); // usage pointer absent
    let out = extract_proxy_ips(&m).unwrap();
    assert!(out.is_empty());
}

#[test]
fn out_of_range_pointer_resolves_to_dash() {
    let mut m = example_file(16909061, b"DCH");
    m[41..45].copy_from_slice(&5000u32.to_le_bytes()); // beyond file length
    let out = extract_proxy_ips(&m).unwrap();
    assert!(out.is_empty());
}

#[test]
fn file_shorter_than_header_is_rejected() {
    assert!(extract_proxy_ips(&[1u8, 2, 3]).is_none());
}

#[test]
fn truncated_row_is_absent() {
    let m = example_file(16909061, b"DCH");
    let h = DatabaseHeader::parse(&m).unwrap();
    assert_eq!(read_row(&m, &h, 0), Some((16909060, 16909061)));
    // a row whose 20 bytes would run past the 90-byte file is absent
    assert_eq!(read_row(&m, &h, 4), None);
    // cutting the file mid-row makes row 0 absent too
    assert_eq!(read_row(&m[..20], &h, 0), None);
}

#[test]
fn read_u32_sentinels() {
    let m = vec![4u8, 1, 0, 0, 9];
    assert_eq!(read_u32(&m, 0), 0); // absent
    assert_eq!(read_u32(&m, 1), 260); // bytes 0..4 little-endian
    assert_eq!(read_u32(&m, 2), 0x09000001); // bytes 1..5
    assert_eq!(read_u32(&m, 3), 0); // would run past the end
    assert_eq!(read_u32(&m, 6), 0); // out of range
}

#[test]
fn read_string_sentinels() {
    let mut m = vec![0u8; 10];
    m[2] = 3;
    m[3..6].copy_from_slice(b"abc");
    assert_eq!(read_string(&m, 3), "abc"); // length byte at 0-based 2
    assert_eq!(read_string(&m, 0), "-"); // absent
    assert_eq!(read_string(&m, 11), "-"); // out of range
    m[9] = 200;
    assert_eq!(read_string(&m, 10), "-"); // declared length runs past the end
}

#[test]
fn field_position_table() {
    for dt in 0u8..=1 {
        assert_eq!(field_position(FieldKind::Proxy, dt), 0);
        assert_eq!(field_position(FieldKind::Usage, dt), 0);
        assert_eq!(field_position(FieldKind::Threat, dt), 0);
    }
    assert_eq!(field_position(FieldKind::Proxy, 2), 2);
    assert_eq!(field_position(FieldKind::Usage, 2), 0);
    assert_eq!(field_position(FieldKind::Threat, 2), 0);
    assert_eq!(field_position(FieldKind::Proxy, 6), 2);
    assert_eq!(field_position(FieldKind::Usage, 6), 8);
    assert_eq!(field_position(FieldKind::Threat, 6), 0);
    assert_eq!(field_position(FieldKind::Proxy, 9), 2);
    assert_eq!(field_position(FieldKind::Usage, 9), 8);
    assert_eq!(field_position(FieldKind::Threat, 9), 12);
    assert_eq!(field_position(FieldKind::Proxy, 12), 2);
    assert_eq!(field_position(FieldKind::Usage, 12), 8);
    assert_eq!(field_position(FieldKind::Threat, 12), 12);
    assert_eq!(field_position(FieldKind::Proxy, 13), 0);
    assert_eq!(field_position(FieldKind::Usage, 255), 0);
}

#[test]
fn json_document_is_exact() {
    let lists = vec![(
        String::from("ip2proxy_dch"),
        ListData { addresses: vec![16909060], networks: vec![] },
    )];
    let out = Output { timestamp: 1700000000, lists };
    assert_eq!(
        render_json(&out),
        "{\"timestamp\":1700000000,\"lists\":{\"ip2proxy_dch\":{\"addresses\":[16909060],\"networks\":[]}}}"
    );
}

#[test]
fn timestamp_renders_all_digits() {
    let out = Output { timestamp: u64::MAX, lists: vec![] };
    assert_eq!(render_json(&out), "{\"timestamp\":18446744073709551615,\"lists\":{}}");
}

#[test]
fn end_to_end_document() {
    let m = example_file(16909061, b"DCH");
    let lists = extract_proxy_ips(&m).unwrap();
    let out = Output { timestamp: 42, lists };
    assert_eq!(
        render_json(&out),
        "{\"timestamp\":42,\"lists\":{\"ip2proxy_dch\":{\"addresses\":[16909060],\"networks\":[]}}}"
    );
}

#[test]
fn json_document_two_buckets_and_ranges() {
    let lists = vec![
        (
            String::from("ip2proxy_vpn"),
            ListData { addresses: vec![5, 10], networks: vec![(50, 59), (70, 80)] },
        ),
        (String::from("ip2proxy_tor"), ListData { addresses: vec![], networks: vec![(1, 2)] }),
    ];
    let out = Output { timestamp: 0, lists };
    assert_eq!(
        render_json(&out),
        "{\"timestamp\":0,\"lists\":{\"ip2proxy_vpn\":{\"addresses\":[5,10],\"networks\":[[50,59],[70,80]]},\"ip2proxy_tor\":{\"addresses\":[],\"networks\":[[1,2]]}}}"
    );
}
