use zenohbench::codec::{decode, encode, zigzag_decode, zigzag_encode, FormatError, TimingRecord};

fn record(msgid: i64, origin_nanos: i64, provenance: &str) -> TimingRecord {
    TimingRecord { msgid, origin_nanos, provenance: provenance.to_string() }
}

fn same(a: &TimingRecord, b: &TimingRecord) -> bool {
    a.msgid == b.msgid && a.origin_nanos == b.origin_nanos && a.provenance == b.provenance
}

#[test]
fn encode_small_record_bytes() {
    let bytes = encode(&record(1, -1, "ab"));
    assert_eq!(bytes, vec![0x16, 0x02, 0x16, 0x01, 0x18, 0x02, b'a', b'b', 0x00]);
}

#[test]
fn encode_multibyte_varint() {
    let bytes = encode(&record(64, 0, ""));
    assert_eq!(bytes, vec![0x16, 0x80, 0x01, 0x16, 0x00, 0x18, 0x00, 0x00]);
}

#[test]
fn zigzag_values() {
    assert_eq!(zigzag_encode(0), 0);
    assert_eq!(zigzag_encode(-1), 1);
    assert_eq!(zigzag_encode(1), 2);
    assert_eq!(zigzag_encode(i64::MAX), u64::MAX - 1);
    assert_eq!(zigzag_encode(i64::MIN), u64::MAX);
    assert_eq!(zigzag_decode(u64::MAX), i64::MIN);
    assert_eq!(zigzag_decode(3), -2);
}

#[test]
fn round_trip_extremes() {
    let cases = vec![
        record(0, 0, ""),
        record(i64::MAX, i64::MIN, "client"),
        record(i64::MIN, i64::MAX, "relay hop 19"),
        record(999, 1_700_000_000_000_000_000, "héllo ✓ 𝄞"),
    ];
    for r in cases.iter() {
        let back = decode(&encode(r)).unwrap();
        assert!(same(&back, r));
    }
}

#[test]
fn round_trip_large_payload() {
    let r = record(7, 42, &"publisher ".repeat(1000));
    let bytes = encode(&r);
    assert!(bytes.len() > 10_000);
    assert!(same(&decode(&bytes).unwrap(), &r));
}

#[test]
fn decode_rejects_empty_and_truncated() {
    assert_eq!(decode(&[]).err(), Some(FormatError));
    let bytes = encode(&record(300, 5, "xyz"));
    for cut in 0..bytes.len() {
        assert_eq!(decode(&bytes[..cut]).err(), Some(FormatError));
    }
}

#[test]
fn decode_rejects_malformed() {
    // wrong header
    assert!(decode(&[0x15, 0x02, 0x16, 0x01, 0x18, 0x00, 0x00]).is_err());
    // trailing byte
    assert!(decode(&[0x16, 0x02, 0x16, 0x01, 0x18, 0x00, 0x00, 0x00]).is_err());
    // missing stop byte
    assert!(decode(&[0x16, 0x02, 0x16, 0x01, 0x18, 0x01, b'a', 0x01]).is_err());
    // non-canonical varint
    assert!(decode(&[0x16, 0x82, 0x00, 0x16, 0x01, 0x18, 0x00, 0x00]).is_err());
    // invalid UTF-8 in the string field
    assert!(decode(&[0x16, 0x02, 0x16, 0x01, 0x18, 0x01, 0xff, 0x00]).is_err());
    // varint longer than 64 bits
    let mut long = vec![0x16];
    long.extend(vec![0xff; 10]);
    long.extend(vec![0x01, 0x16, 0x00, 0x18, 0x00, 0x00]);
    assert!(decode(&long).is_err());
}

#[test]
fn decode_accepts_hand_written_bytes() {
    let r = decode(&[0x16, 0x04, 0x16, 0x03, 0x18, 0x01, b'z', 0x00]).unwrap();
    assert_eq!(r.msgid, 2);
    assert_eq!(r.origin_nanos, -2);
    assert_eq!(r.provenance, "z");
}
