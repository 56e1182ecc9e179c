use cbidiff::varint::{decode_varint_i64, decode_varint_u64, encode_varint_i64, encode_varint_u64};
use cbidiff::PatchError;

fn enc_u(v: u64) -> Vec<u8> {
    let mut out: Vec<u8> = Vec::new();
    encode_varint_u64(v, &mut out);
    out
}

fn enc_i(v: i64) -> Vec<u8> {
    let mut out: Vec<u8> = Vec::new();
    encode_varint_i64(v, &mut out);
    out
}

#[test]
fn unsigned_known_encodings() {
    assert_eq!(enc_u(0), vec![0x00]);
    assert_eq!(enc_u(1), vec![0x01]);
    assert_eq!(enc_u(127), vec![0x7f]);
    assert_eq!(enc_u(128), vec![0x80, 0x01]);
    assert_eq!(enc_u(300), vec![0xac, 0x02]);
    assert_eq!(enc_u(16384), vec![0x80, 0x80, 0x01]);
    assert_eq!(
        enc_u(u64::MAX),
        vec![0xff, 0xff, 0xff, 0xff, 0xff, 0xff, 0xff, 0xff, 0xff, 0x01]
    );
}

#[test]
fn signed_known_encodings() {
    assert_eq!(enc_i(0), vec![0x00]);
    assert_eq!(enc_i(-1), vec![0x01]);
    assert_eq!(enc_i(1), vec![0x02]);
    assert_eq!(enc_i(-2), vec![0x03]);
    assert_eq!(enc_i(2), vec![0x04]);
    assert_eq!(
        enc_i(i64::MIN),
        vec![0xff, 0xff, 0xff, 0xff, 0xff, 0xff, 0xff, 0xff, 0xff, 0x01]
    );
}

#[test]
fn unsigned_round_trip() {
    let samples: Vec<u64> = vec![
        0,
        1,
        127,
        128,
        129,
        255,
        256,
        16383,
        16384,
        300,
        u32::MAX as u64,
        u64::MAX - 1,
        u64::MAX,
    ];
    for &v in &samples {
        let bytes = enc_u(v);
        let (decoded, end) = decode_varint_u64(&bytes, 0).expect("a canonical encoding decodes");
        assert_eq!(decoded, v);
        assert_eq!(end, bytes.len());
    }
}

#[test]
fn signed_round_trip() {
    let samples: Vec<i64> = vec![0, 1, -1, 2, -2, 63, 64, -64, -65, 1000, -1000, i64::MAX, i64::MIN];
    for &v in &samples {
        let bytes = enc_i(v);
        let (decoded, end) = decode_varint_i64(&bytes, 0).expect("a canonical encoding decodes");
        assert_eq!(decoded, v);
        assert_eq!(end, bytes.len());
    }
}

#[test]
fn decode_starts_mid_buffer() {
    let mut bytes = vec![0xee, 0xee];
    bytes.extend_from_slice(&enc_u(300));
    let (decoded, end) = decode_varint_u64(&bytes, 2).expect("decoding may start anywhere");
    assert_eq!(decoded, 300);
    assert_eq!(end, 4);
}

#[test]
fn decode_accepts_redundant_leading_groups() {
    // 0x80 0x00 carries the value 0 in two bytes
    let bytes = vec![0x80, 0x00];
    let (decoded, end) = decode_varint_u64(&bytes, 0).expect("a redundant encoding still decodes");
    assert_eq!(decoded, 0);
    assert_eq!(end, 2);

    // ten continuation bytes of zero groups, then a zero terminator
    let bytes = vec![0x80, 0x80, 0x80, 0x80, 0x80, 0x80, 0x80, 0x80, 0x80, 0x80, 0x00];
    let (decoded, end) = decode_varint_u64(&bytes, 0).expect("zero survives any group count");
    assert_eq!(decoded, 0);
    assert_eq!(end, 11);
}

#[test]
fn decode_truncated_is_truncated_integer() {
    assert_eq!(decode_varint_u64(&vec![], 0), Err(PatchError::TruncatedInteger));
    assert_eq!(decode_varint_u64(&vec![0x80], 0), Err(PatchError::TruncatedInteger));
    assert_eq!(
        decode_varint_u64(&vec![0xff, 0xff, 0xff], 0),
        Err(PatchError::TruncatedInteger)
    );
    assert_eq!(decode_varint_i64(&vec![0x80], 0), Err(PatchError::TruncatedInteger));
}

#[test]
fn decode_oversized_value_is_corrupt() {
    // eleven nonzero groups encode a value past the 64-bit domain
    let bytes = vec![0x81, 0x81, 0x81, 0x81, 0x81, 0x81, 0x81, 0x81, 0x81, 0x81, 0x01];
    assert_eq!(decode_varint_u64(&bytes, 0), Err(PatchError::CorruptPatch));
}
