use cbidiff::control::{encode_ops, Control};
use cbidiff::engine::{apply_compressed, cycle, make_patch, verify_digest};
use cbidiff::PatchError;

fn pseudo_random(len: usize, mut seed: u64) -> Vec<u8> {
    let mut out = Vec::with_capacity(len);
    for _ in 0..len {
        seed = seed.wrapping_mul(6364136223846793005).wrapping_add(1442695040888963407);
        out.push((seed >> 33) as u8);
    }
    out
}

#[test]
fn diff_then_patch_reconstructs() {
    let older = pseudo_random(40_000, 7);
    let mut newer = older.clone();
    // edit a run in the middle, drop a tail, add new content
    for b in newer[1_000..1_200].iter_mut() {
        *b = b.wrapping_add(3);
    }
    newer.truncate(35_000);
    newer.extend_from_slice(&pseudo_random(2_000, 99));
    let patch = make_patch(&older, &newer);
    let fresh = apply_compressed(&patch, &older).expect("the produced patch applies");
    assert_eq!(fresh, newer);
}

#[test]
fn diff_then_patch_on_unrelated_inputs() {
    let older = b"completely different".to_vec();
    let newer = pseudo_random(5_000, 3);
    let patch = make_patch(&older, &newer);
    assert_eq!(apply_compressed(&patch, &older).expect("applies"), newer);
}

#[test]
fn diff_then_patch_on_empty_inputs() {
    let older: Vec<u8> = Vec::new();
    let newer = b"fresh content".to_vec();
    let patch = make_patch(&older, &newer);
    assert_eq!(apply_compressed(&patch, &older).expect("applies"), newer);

    let patch = make_patch(&newer, &older);
    assert_eq!(apply_compressed(&patch, &newer).expect("applies"), older);
}

#[test]
fn envelope_is_real_brotli() {
    // a stream compressed with brotli directly must be accepted...
    let base = vec![0x41, 0x41, 0x41, 0x41];
    let raw = encode_ops(&vec![Control { add: vec![1, 1, 1, 1], copy: vec![], seek: 0 }]);
    let mut compressed: Vec<u8> = Vec::new();
    let mut params = brotli::enc::BrotliEncoderInitParams();
    params.quality = 9;
    let mut reader: &[u8] = &raw[..];
    brotli::BrotliCompress(&mut reader, &mut compressed, &params).expect("compress");
    let out = apply_compressed(&compressed, &base).expect("a brotli envelope decodes");
    assert_eq!(out, vec![0x42, 0x42, 0x42, 0x42]);
    // ...and the raw record bytes are not passed through unwrapped
    assert_ne!(compressed, raw);
}

#[test]
fn truncated_envelope_is_corrupt() {
    let older = pseudo_random(10_000, 21);
    let newer = pseudo_random(10_000, 22);
    let patch = make_patch(&older, &newer);
    let truncated: Vec<u8> = patch[..1].to_vec();
    assert_eq!(apply_compressed(&truncated, &older), Err(PatchError::CorruptPatch));
}

#[test]
fn digest_mismatch_is_reported_distinctly() {
    assert_eq!(verify_digest(&vec![1, 2, 3], &vec![1, 2, 3]), Ok(()));
    assert_eq!(
        verify_digest(&vec![1, 2, 3], &vec![1, 2, 4]),
        Err(PatchError::VerificationMismatch)
    );
    assert_eq!(
        verify_digest(&vec![1, 2, 3], &vec![1, 2]),
        Err(PatchError::VerificationMismatch)
    );
}

#[test]
fn cycle_reports_sizes_and_target_digest() {
    let older = pseudo_random(8_192, 1);
    let mut newer = older.clone();
    newer[100] = newer[100].wrapping_add(1);
    newer.push(0xaa);
    let report = cycle(&older, &newer).expect("the cycle's self check holds");
    assert_eq!(report.older_size, older.len());
    assert_eq!(report.newer_size, newer.len());
    assert!(report.patch_size > 0);
    assert_eq!(report.target_digest, hmac_sha256::Hash::hash(&newer).to_vec());
}

#[test]
fn cycle_digest_is_sha256() {
    // SHA-256("abc"), the classic test vector
    let older = b"xyz".to_vec();
    let newer = b"abc".to_vec();
    let report = cycle(&older, &newer).expect("cycle");
    let expected: Vec<u8> = vec![
        0xba, 0x78, 0x16, 0xbf, 0x8f, 0x01, 0xcf, 0xea, 0x41, 0x41, 0x40, 0xde, 0x5d, 0xae,
        0x22, 0x23, 0xb0, 0x03, 0x61, 0xa3, 0x96, 0x17, 0x7a, 0x9c, 0xb4, 0x10, 0xff, 0x61,
        0xf2, 0x00, 0x15, 0xad,
    ];
    assert_eq!(report.target_digest, expected);
}
