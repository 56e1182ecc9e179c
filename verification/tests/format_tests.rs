use cbidiff::apply::apply_patch;
use cbidiff::control::{encode_ops, write_control, Control};
use cbidiff::PatchError;

fn ctl(add: Vec<u8>, copy: Vec<u8>, seek: i64) -> Control {
    Control { add, copy, seek }
}

fn encode(ops: Vec<Control>) -> Vec<u8> {
    encode_ops(&ops)
}

#[test]
fn record_wire_layout() {
    let mut out: Vec<u8> = Vec::new();
    write_control(&mut out, &ctl(vec![0x01, 0x01], vec![0x41], -3));
    // varint(2), add bytes, varint(1), copy byte, varint(zigzag(-3) = 5)
    assert_eq!(out, vec![0x02, 0x01, 0x01, 0x01, 0x41, 0x05]);
}

#[test]
fn encoding_is_deterministic() {
    let make = || vec![ctl(vec![7, 8], vec![9], -4), ctl(vec![], vec![1, 2, 3], 2)];
    let first = encode(make());
    let second = encode(make());
    assert_eq!(first, second);
}

#[test]
fn degenerate_record_is_three_zero_bytes_and_does_nothing() {
    let bytes = encode(vec![ctl(vec![], vec![], 0)]);
    assert_eq!(bytes, vec![0x00, 0x00, 0x00]);
    let out = apply_patch(&bytes, &b"ANY BASE".to_vec()).expect("a degenerate record is legal");
    assert_eq!(out, Vec::<u8>::new());
}

#[test]
fn degenerate_record_between_records_moves_nothing() {
    let base = b"AAAA".to_vec();
    // the degenerate record leaves the cursor at 0, so the add still reads 'A'
    let bytes = encode(vec![ctl(vec![], vec![], 0), ctl(vec![1, 1, 1, 1], vec![], 0)]);
    let out = apply_patch(&bytes, &base).expect("apply");
    assert_eq!(out, b"BBBB".to_vec());
}

#[test]
fn copy_only_record() {
    // copy bytes are literal: the output ignores the base's content
    let base = b"ABCDEFGH".to_vec();
    let bytes = encode(vec![ctl(vec![], b"ABCXEFGH".to_vec(), 0)]);
    let out = apply_patch(&bytes, &base).expect("apply");
    assert_eq!(out, b"ABCXEFGH".to_vec());
}

#[test]
fn add_only_record() {
    // (0x41 + 0x01) mod 256 == 0x42
    let base = vec![0x41, 0x41, 0x41, 0x41];
    let bytes = encode(vec![ctl(vec![0x01, 0x01, 0x01, 0x01], vec![], 0)]);
    let out = apply_patch(&bytes, &base).expect("apply");
    assert_eq!(out, vec![0x42, 0x42, 0x42, 0x42]);
}

#[test]
fn seek_moves_the_cursor_before_the_next_add() {
    let base = b"XXXXYYYY".to_vec();
    let bytes = encode(vec![
        ctl(vec![], vec![], 4),
        ctl(vec![0, 0, 0, 0], vec![], 0),
    ]);
    let out = apply_patch(&bytes, &base).expect("apply");
    assert_eq!(out, b"YYYY".to_vec());
}

#[test]
fn add_arithmetic_wraps_modulo_256() {
    let base = vec![0xff, 0x80];
    let bytes = encode(vec![ctl(vec![0x01, 0x80], vec![], 0)]);
    let out = apply_patch(&bytes, &base).expect("apply");
    assert_eq!(out, vec![0x00, 0x00]);
}

#[test]
fn negative_seek_rewinds() {
    let base = b"ab".to_vec();
    // read 'a' with a passthrough add, rewind one byte, read 'a' again
    let bytes = encode(vec![ctl(vec![0], vec![], -1), ctl(vec![0], vec![], 0)]);
    let out = apply_patch(&bytes, &base).expect("apply");
    assert_eq!(out, b"aa".to_vec());
}

#[test]
fn empty_patch_is_empty_output() {
    let out = apply_patch(&Vec::new(), &b"base".to_vec()).expect("an empty stream terminates");
    assert_eq!(out, Vec::<u8>::new());
}

#[test]
fn add_past_base_end_is_corrupt() {
    // add of two bytes against an empty base
    let bytes = encode(vec![ctl(vec![0, 0], vec![], 0)]);
    assert_eq!(apply_patch(&bytes, &Vec::new()), Err(PatchError::CorruptPatch));
}

#[test]
fn seek_before_base_start_is_corrupt() {
    let bytes = encode(vec![ctl(vec![], vec![], -1)]);
    assert_eq!(apply_patch(&bytes, &b"AB".to_vec()), Err(PatchError::CorruptPatch));
}

#[test]
fn seek_past_base_end_is_legal_until_read() {
    // the cursor may rest beyond the base; only reading there fails
    let fine = encode(vec![ctl(vec![], vec![], 100)]);
    assert!(apply_patch(&fine, &b"AB".to_vec()).is_ok());
    let bad = encode(vec![ctl(vec![], vec![], 100), ctl(vec![0], vec![], 0)]);
    assert_eq!(apply_patch(&bad, &b"AB".to_vec()), Err(PatchError::CorruptPatch));
}

#[test]
fn truncation_anywhere_inside_a_record_is_corrupt() {
    let base = b"0123456789".to_vec();
    let ops = vec![
        ctl(vec![1, 2, 3], vec![9, 8], -2),
        ctl(vec![], vec![], 0),
        ctl(vec![5], b"tail".to_vec(), 300),
    ];
    // record boundaries in the raw stream
    let mut boundaries = vec![0usize];
    let mut acc: Vec<u8> = Vec::new();
    for op in &ops {
        write_control(&mut acc, op);
        boundaries.push(acc.len());
    }
    let full = encode(ops);
    assert_eq!(acc, full);
    for cut in 0..=full.len() {
        let prefix: Vec<u8> = full[..cut].to_vec();
        let r = apply_patch(&prefix, &base);
        if boundaries.contains(&cut) {
            assert!(r.is_ok(), "a cut at record boundary {cut} is a shorter valid stream");
        } else {
            assert_eq!(r, Err(PatchError::CorruptPatch), "a cut at offset {cut} must be refused");
        }
    }
}

#[test]
fn chunk_boundary_lengths_reconstruct() {
    // lengths around the original streaming buffer size
    let c: usize = 64 * 1024;
    for &n in &[0usize, 1, c - 1, c, c + 1, 3 * c] {
        let base: Vec<u8> = (0..n).map(|i| (i % 251) as u8).collect();
        let residual: Vec<u8> = (0..n).map(|i| (i % 13) as u8).collect();
        let expected: Vec<u8> = (0..n)
            .map(|i| base[i].wrapping_add(residual[i]))
            .collect();
        // add path
        let bytes = encode(vec![ctl(residual.clone(), vec![], 0)]);
        assert_eq!(apply_patch(&bytes, &base).expect("apply add"), expected, "add len {n}");
        // copy path
        let literal: Vec<u8> = (0..n).map(|i| (i % 7) as u8).collect();
        let bytes = encode(vec![ctl(vec![], literal.clone(), 0)]);
        assert_eq!(apply_patch(&bytes, &base).expect("apply copy"), literal, "copy len {n}");
    }
}
