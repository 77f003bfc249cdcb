use antigravity_tools::client_hello::{
    find_extensions_offset, is_grease, looks_like_client_hello, parse_extensions,
    patch_client_hello, GreaseCounter,
};

/// Minimal synthetic ClientHello for the tests.
fn make_fake_client_hello(ext_types: &[(u16, Vec<u8>)]) -> Vec<u8> {
    let mut body = Vec::new();
    body.extend_from_slice(&[0x03, 0x03]);
    body.extend_from_slice(&[0xAB; 32]);
    body.push(0x00);
    body.extend_from_slice(&[0x00, 0x02, 0x13, 0x01]);
    body.extend_from_slice(&[0x01, 0x00]);

    let mut ext_bytes = Vec::new();
    for (t, d) in ext_types {
        ext_bytes.extend_from_slice(&t.to_be_bytes());
        ext_bytes.extend_from_slice(&(d.len() as u16).to_be_bytes());
        ext_bytes.extend_from_slice(d);
    }
    body.extend_from_slice(&(ext_bytes.len() as u16).to_be_bytes());
    body.extend_from_slice(&ext_bytes);

    let hs_len = body.len();
    let mut hs = vec![0x01];
    hs.push(((hs_len >> 16) & 0xFF) as u8);
    hs.push(((hs_len >> 8) & 0xFF) as u8);
    hs.push((hs_len & 0xFF) as u8);
    hs.extend_from_slice(&body);

    let rec_len = hs.len();
    let mut record = vec![0x16, 0x03, 0x01];
    record.push(((rec_len >> 8) & 0xFF) as u8);
    record.push((rec_len & 0xFF) as u8);
    record.extend_from_slice(&hs);
    record
}

#[test]
fn test_looks_like_client_hello() {
    let ch = make_fake_client_hello(&[]);
    assert!(looks_like_client_hello(&ch));
    assert!(!looks_like_client_hello(&[0x17, 0x03, 0x03, 0x00, 0x05]));
}

#[test]
fn test_grease_detection() {
    assert!(is_grease(0x0A0A));
    assert!(is_grease(0xFAFA));
    assert!(is_grease(0x2A2A));
    assert!(!is_grease(0x0000));
    assert!(!is_grease(0x0010));
}

#[test]
fn test_patch_roundtrip_lengths() {
    let exts = vec![
        (0x0010u16, vec![0x00, 0x02, 0x68, 0x32]),
        (0x0000u16, vec![0x00, 0x00, 0x0A, 0x00, 0x08, 0x00, 0x06,
                          0x65, 0x78, 0x61, 0x6D, 0x70, 0x6C, 0x65]),
        (0x002Bu16, vec![0x03, 0x04, 0x03, 0x03]),
    ];
    let original = make_fake_client_hello(&exts);
    let mut grease = GreaseCounter::new();
    let patched = patch_client_hello(original.clone(), &mut grease).unwrap();

    let rec_len = u16::from_be_bytes([patched[3], patched[4]]) as usize;
    assert_eq!(rec_len, patched.len() - 5, "TLS Record length mismatch");

    let hs_len = ((patched[6] as usize) << 16)
        | ((patched[7] as usize) << 8)
        | (patched[8] as usize);
    assert_eq!(hs_len, patched.len() - 9, "Handshake length mismatch");
}

#[test]
fn test_chromium_order_sni_first_after_grease() {
    let exts = vec![
        (0x000Du16, vec![0x00, 0x02, 0x04, 0x01]),
        (0x0000u16, vec![0x00; 8]),
        (0x0010u16, vec![0x00, 0x02, 0x68, 0x32]),
    ];
    let original = make_fake_client_hello(&exts);
    let mut grease = GreaseCounter::new();
    let patched = patch_client_hello(original, &mut grease).unwrap();

    let ext_offset = find_extensions_offset(&patched).unwrap();
    let ext_len = u16::from_be_bytes([patched[ext_offset], patched[ext_offset + 1]]) as usize;
    let parsed = parse_extensions(&patched[ext_offset + 2..ext_offset + 2 + ext_len]).unwrap();

    assert!(is_grease(parsed[0].0), "First ext must be GREASE, got {:#06x}", parsed[0].0);
    assert_eq!(parsed[1].0, 0x0000, "Second ext must be SNI");
}

use antigravity_tools::client_hello::{
    check_bounds, fix_lengths, inject_grease_if_missing, local_proxy_url, normalize_first_record,
    reorder_extensions_chromium, serialize_extensions, ProxyError,
};

fn parse_error_text(r: Result<impl std::fmt::Debug, ProxyError>) -> String {
    match r {
        Err(ProxyError::ParseError(m)) => m,
        other => panic!("expected a parse error, got {:?}", other),
    }
}

#[test]
fn grease_counter_cycles_through_sixteen_values() {
    let mut g = GreaseCounter::new();
    let mut seen = Vec::new();
    for _ in 0..16 {
        let t = g.next_grease_ext_type();
        assert!(is_grease(t));
        seen.push(t);
    }
    assert_eq!(seen[0], 0x0A0A);
    assert_eq!(seen[1], 0x1A1A);
    assert_eq!(seen[15], 0xFAFA);
    assert_eq!(g.next_grease_ext_type(), 0x0A0A);
    let mut wrapping = GreaseCounter { count: u16::MAX };
    assert_eq!(wrapping.next_grease_ext_type(), 0xFAFA);
    assert_eq!(wrapping.count, 0);
}

#[test]
fn inject_adds_grease_only_when_missing() {
    let mut g = GreaseCounter::new();
    let mut exts = vec![(0x0000u16, vec![1u8])];
    inject_grease_if_missing(&mut exts, &mut g);
    assert_eq!(exts, vec![(0x0A0Au16, vec![]), (0x0000u16, vec![1u8])]);
    assert_eq!(g.count, 1);
    inject_grease_if_missing(&mut exts, &mut g);
    assert_eq!(exts.len(), 2);
    assert_eq!(g.count, 1);
}

#[test]
fn reorder_follows_chromium_and_keeps_unknown_types() {
    let mut exts = vec![
        (0x1234u16, vec![1]),
        (0x000Du16, vec![2]),
        (0x2A2Au16, vec![3]),
        (0x0000u16, vec![4]),
        (0x0000u16, vec![5]),
        (0x1234u16, vec![6]),
        (0x0A0Au16, vec![7]),
        (0x2A2Au16, vec![8]),
    ];
    reorder_extensions_chromium(&mut exts);
    assert_eq!(
        exts,
        vec![
            (0x2A2Au16, vec![3]),
            (0x0A0Au16, vec![7]),
            (0x0000u16, vec![5]),
            (0x000Du16, vec![2]),
            (0x1234u16, vec![1]),
        ]
    );
}

#[test]
fn serialize_then_parse_gives_back_the_list() {
    let exts = vec![(0x0010u16, vec![0x00, 0x02, 0x68, 0x32]), (0xAAAAu16, vec![])];
    let bytes = serialize_extensions(&exts);
    assert_eq!(bytes, vec![0x00, 0x10, 0x00, 0x04, 0x00, 0x02, 0x68, 0x32, 0xAA, 0xAA, 0x00, 0x00]);
    assert_eq!(parse_extensions(&bytes).unwrap(), exts);
}

#[test]
fn parse_ignores_short_tail_and_rejects_overlong_data() {
    assert_eq!(parse_extensions(&[0x00, 0x10, 0x00]).unwrap(), vec![]);
    let m = parse_error_text(parse_extensions(&[0x00, 0x2b, 0x00, 0x05, 0x01]));
    assert_eq!(m, "Extension 0x002b data out of bounds");
}

#[test]
fn bounds_errors_name_the_field() {
    let m = parse_error_text(check_bounds(&[0u8; 10], 9, 2, "CipherSuites length"));
    assert_eq!(m, "Buffer too short at 'CipherSuites length': pos=9, need=2, len=10");
    assert!(check_bounds(&[0u8; 10], 8, 2, "x").is_ok());
    let m = parse_error_text(find_extensions_offset(&[0x16u8; 20]));
    assert_eq!(m, "Buffer too short at 'SessionID length': pos=43, need=1, len=20");
}

#[test]
fn patch_reports_extension_block_past_the_end() {
    let mut ch = make_fake_client_hello(&[(0x0000u16, vec![0; 4])]);
    let off = find_extensions_offset(&ch).unwrap();
    ch[off] = 0x01;
    let len = ch.len();
    let m = parse_error_text(patch_client_hello(ch, &mut GreaseCounter::new()));
    assert_eq!(m, format!("Extension block out of bounds: {} > {}", off + 2 + 256 + 8, len));
}

#[test]
fn fix_lengths_rewrites_all_three_fields() {
    let mut buf = vec![0u8; 60];
    fix_lengths(&mut buf, 50, 0x0102).unwrap();
    assert_eq!(&buf[3..5], &[0x00, 55]);
    assert_eq!(&buf[6..9], &[0x00, 0x00, 51]);
    assert_eq!(&buf[50..52], &[0x01, 0x02]);
    let mut big = vec![0u8; 0x10005];
    let m = parse_error_text(fix_lengths(&mut big, 50, 0));
    assert_eq!(m, "Record too large");
    assert_eq!(&big[6..9], &[0x00, 0xFF, 0xFC]);
}

#[test]
fn patch_keeps_existing_grease_and_advances_counter_otherwise() {
    let with = make_fake_client_hello(&[(0x0000u16, vec![]), (0x3A3Au16, vec![])]);
    let mut g = GreaseCounter::new();
    let out = patch_client_hello(with, &mut g).unwrap();
    assert_eq!(g.count, 0);
    let off = find_extensions_offset(&out).unwrap();
    let parsed = parse_extensions(&out[off + 2..]).unwrap();
    assert_eq!(parsed, vec![(0x3A3Au16, vec![]), (0x0000u16, vec![])]);

    let without = make_fake_client_hello(&[(0x0000u16, vec![])]);
    let out = patch_client_hello(without.clone(), &mut g).unwrap();
    assert_eq!(g.count, 1);
    assert_eq!(out.len(), without.len() + 4);
}

#[test]
fn normalize_passes_other_records_through() {
    let mut g = GreaseCounter::new();
    let app_data = vec![0x17u8, 0x03, 0x03, 0x00, 0x05, 1, 2, 3, 4, 5];
    assert_eq!(normalize_first_record(app_data.clone(), &mut g), app_data);
    let mut broken = make_fake_client_hello(&[]);
    broken.truncate(20);
    assert_eq!(normalize_first_record(broken.clone(), &mut g), broken);
    assert_eq!(g.count, 0);
    let hello = make_fake_client_hello(&[(0x0010u16, vec![1, 2])]);
    let out = normalize_first_record(hello.clone(), &mut g);
    assert_eq!(out.len(), hello.len() + 4);
    assert_eq!(g.count, 1);
}

#[test]
fn local_proxy_url_names_the_port() {
    assert_eq!(local_proxy_url(0), "http://127.0.0.1:0");
    assert_eq!(local_proxy_url(65535), "http://127.0.0.1:65535");
}

#[test]
fn reorder_twice_changes_nothing() {
    let mut exts = vec![
        (0x1234u16, vec![1]),
        (0x000Du16, vec![2]),
        (0x2A2Au16, vec![3]),
        (0x0000u16, vec![4]),
        (0x0000u16, vec![5]),
        (0x0A0Au16, vec![7]),
    ];
    reorder_extensions_chromium(&mut exts);
    let once = exts.clone();
    reorder_extensions_chromium(&mut exts);
    assert_eq!(exts, once);
}

#[test]
fn patch_twice_changes_nothing() {
    let exts = vec![(0x000Du16, vec![1, 2]), (0x0000u16, vec![3]), (0x1234u16, vec![])];
    let mut grease = GreaseCounter::new();
    let once = patch_client_hello(make_fake_client_hello(&exts), &mut grease).unwrap();
    let count = grease.count;
    let twice = patch_client_hello(once.clone(), &mut grease).unwrap();
    assert_eq!(twice, once);
    assert_eq!(grease.count, count);
}
