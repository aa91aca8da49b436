use xrebalance::onion_error::{
    classify_fee_insufficient, parse_chan_update, read_be, read_bigsize, FeeFault,
};

fn push_be(b: &mut Vec<u8>, v: u64, nbytes: usize) {
    for i in 0..nbytes {
        b.push((v >> (8 * (nbytes - 1 - i))) as u8);
    }
}

/// A 136-byte channel_update body (no type prefix),
/// sig..timestamp zeroed.
fn make_cu_body(
    disabled: bool,
    cltv: u16,
    htlc_min: u64,
    base: u32,
    prop: u32,
    htlc_max: u64,
) -> Vec<u8> {
    let mut b = vec![0u8; 110];
    b[109] = if disabled { 0x02 } else { 0x00 };
    push_be(&mut b, u64::from(cltv), 2);
    push_be(&mut b, htlc_min, 8);
    push_be(&mut b, u64::from(base), 4);
    push_be(&mut b, u64::from(prop), 4);
    push_be(&mut b, htlc_max, 8);
    assert_eq!(b.len(), 136);
    b
}

/// Wrap a channel_update in an onion failure payload: failcode
/// + `header` zero bytes + 2-byte length + optional 0x0102
/// type prefix + the update.
fn make_onion_hex(failcode: u16, header: usize, cu: &[u8], type_prefix: bool) -> String {
    let mut m = Vec::new();
    push_be(&mut m, u64::from(failcode), 2);
    m.extend(std::iter::repeat(0u8).take(header));
    let mut full = Vec::new();
    if type_prefix {
        full.extend([0x01, 0x02]);
    }
    full.extend_from_slice(cu);
    push_be(&mut m, full.len() as u64, 2);
    m.extend(full);
    hex::encode(m)
}

/// Append a bLIP-18 inbound-fee TLV with the given length byte
/// (a `len` other than 8 makes it malformed-for-us on
/// purpose).
fn push_inbound_tlv(cu: &mut Vec<u8>, len: u8, base: i32, prop: i32) {
    // type 55555 = 0xd903 needs the 0xfd bigsize form.
    cu.push(0xfd);
    push_be(cu, 55555, 2);
    cu.push(len);
    push_be(cu, base as u32 as u64, 4);
    push_be(cu, prop as u32 as u64, 4);
    cu.extend(std::iter::repeat(0u8).take((len as usize).saturating_sub(8)));
}

#[test]
fn happy_path_100c_with_type_prefix() {
    let body = make_cu_body(false, 144, 1000, 1234, 567, 1_000_000_000);
    let cu = parse_chan_update(&make_onion_hex(0x100c, 8, &body, true)).unwrap();
    assert!(cu.enabled);
    assert_eq!(cu.cltv_expiry_delta, 144);
    assert_eq!(cu.htlc_minimum_msat, 1000);
    assert_eq!(cu.fee_base_msat, 1234);
    assert_eq!(cu.fee_proportional_millionths, 567);
    assert_eq!(cu.htlc_maximum_msat, 1_000_000_000);
    assert!(cu.inbound_fee.is_none());
}

#[test]
fn no_type_prefix_via_100d() {
    let body = make_cu_body(true, 40, 1, 0, 100, 21_000_000);
    let cu = parse_chan_update(&make_onion_hex(0x100d, 4, &body, false)).unwrap();
    assert!(!cu.enabled);
    assert_eq!(cu.cltv_expiry_delta, 40);
    assert_eq!(cu.fee_proportional_millionths, 100);
}

#[test]
fn absurd_proportional_fee_rejected() {
    let body = make_cu_body(false, 144, 0, 0, 1_000_001, 1);
    assert!(parse_chan_update(&make_onion_hex(0x100c, 8, &body, true)).is_none());
    // Exactly 100% is still accepted.
    let body = make_cu_body(false, 144, 0, 0, 1_000_000, 1);
    assert!(parse_chan_update(&make_onion_hex(0x100c, 8, &body, true)).is_some());
}

#[test]
fn inbound_fee_tlv_signed_values() {
    let mut body = make_cu_body(false, 144, 0, 0, 0, 1);
    push_inbound_tlv(&mut body, 8, -1000, 250);
    let cu = parse_chan_update(&make_onion_hex(0x100b, 8, &body, true)).unwrap();
    assert_eq!(cu.inbound_fee, Some((-1000, 250)));
}

#[test]
fn inbound_tlv_wrong_length_ignored() {
    let mut body = make_cu_body(false, 144, 0, 0, 0, 1);
    push_inbound_tlv(&mut body, 9, 1000, 250);
    let cu = parse_chan_update(&make_onion_hex(0x100c, 8, &body, true)).unwrap();
    assert!(cu.inbound_fee.is_none());
}

#[test]
fn malicious_tlv_length_does_not_wrap() {
    let mut body = make_cu_body(false, 144, 0, 0, 0, 1);
    body.push(0xfd);
    push_be(&mut body, 55555, 2);
    body.push(0xff);
    push_be(&mut body, u64::MAX, 8);
    // 8 in-bounds bytes a wrapped bounds check would misread.
    push_be(&mut body, 0x1122334455667788, 8);
    let cu = parse_chan_update(&make_onion_hex(0x100c, 8, &body, true)).unwrap();
    assert!(cu.inbound_fee.is_none());
}

#[test]
fn non_carrying_failcode_rejected() {
    let body = make_cu_body(false, 144, 0, 0, 0, 1);
    assert!(parse_chan_update(&make_onion_hex(0x2002, 0, &body, true)).is_none());
}

#[test]
fn truncated_and_garbage_rejected() {
    let body = make_cu_body(false, 144, 0, 0, 0, 1);
    let hex = make_onion_hex(0x100c, 8, &body, true);
    assert!(parse_chan_update(&hex[..hex.len() - 40]).is_none());
    assert!(parse_chan_update("zznothexzz").is_none());
    assert!(parse_chan_update("").is_none());
    // Zero-length channel_update.
    assert!(parse_chan_update("100c00000000000000000000").is_none());
}

#[test]
fn classify_no_update_is_inbound() {
    assert!(matches!(
        classify_fee_insufficient(0, 1_000_000, None),
        FeeFault::Inbound
    ));
}

#[test]
fn classify_covered_outbound_is_inbound() {
    let body = make_cu_body(false, 144, 0, 100, 500, 1);
    let cu = parse_chan_update(&make_onion_hex(0x100c, 8, &body, true)).unwrap();
    // required = 100 + 500 * 1_000_000 / 1_000_000 = 600.
    assert!(matches!(
        classify_fee_insufficient(600, 1_000_000, Some(&cu)),
        FeeFault::Inbound
    ));
    assert!(matches!(
        classify_fee_insufficient(599, 1_000_000, Some(&cu)),
        FeeFault::StaleOutbound
    ));
}

#[test]
fn every_carrying_failcode_is_read() {
    let body = make_cu_body(false, 9, 8, 7, 6, 5);
    for (failcode, header) in [
        (0x1007, 0),
        (0x100b, 8),
        (0x100c, 8),
        (0x100d, 4),
        (0x100e, 0),
    ] {
        let bare = parse_chan_update(&make_onion_hex(failcode, header, &body, false)).unwrap();
        let typed = parse_chan_update(&make_onion_hex(failcode, header, &body, true)).unwrap();
        assert_eq!(bare.fee_base_msat, 7);
        assert_eq!(bare.htlc_minimum_msat, 8);
        assert!(bare.same_policy(&typed));
    }
}

#[test]
fn upper_case_hex_is_read_too() {
    let body = make_cu_body(false, 0xabcd, 8, 7, 6, 5);
    let hex = make_onion_hex(0x100c, 8, &body, true).to_uppercase();
    assert_eq!(parse_chan_update(&hex).unwrap().cltv_expiry_delta, 0xabcd);
}

#[test]
fn huge_amounts_are_classified_exactly() {
    let body = make_cu_body(false, 144, 0, u32::MAX, 1_000_000, 1);
    let cu = parse_chan_update(&make_onion_hex(0x100c, 8, &body, true)).unwrap();
    // required = u32::MAX + u64::MAX: more than any allocation.
    assert_eq!(
        classify_fee_insufficient(u64::MAX, u64::MAX, Some(&cu)),
        FeeFault::StaleOutbound
    );
}

#[test]
fn big_endian_reads() {
    let data = [0x01, 0x02, 0x03, 0x04, 0x05, 0x06, 0x07, 0x08, 0x09];
    assert_eq!(read_be(&data, 1, 0), 0);
    assert_eq!(read_be(&data, 0, 2), 0x0102);
    assert_eq!(read_be(&data, 1, 8), 0x0203040506070809);
}

#[test]
fn bigsize_reads() {
    let mut pos = 0;
    assert_eq!(read_bigsize(&[0xfc], &mut pos), Some(0xfc));
    assert_eq!(pos, 1);
    assert_eq!(read_bigsize(&[0xfc], &mut pos), None);
    assert_eq!(pos, 1);
    let mut pos = 0;
    assert_eq!(read_bigsize(&[0xfd, 0x12, 0x34], &mut pos), Some(0x1234));
    assert_eq!(pos, 3);
    let mut pos = 0;
    assert_eq!(read_bigsize(&[0xfe, 0, 1, 0, 2], &mut pos), Some(0x10002));
    assert_eq!(pos, 5);
    let mut pos = 0;
    assert_eq!(read_bigsize(&[0xff, 0, 0], &mut pos), None);
    assert_eq!(pos, 0);
}
