//! The end-to-end engine: the external diff generator and the compression
//! envelope at the library's boundary, and the verified pipeline around
//! them — serialize, compress, decompress, replay, and the digest-checked
//! round-trip cycle.

use vstd::prelude::*;

use crate::apply::{
    apply_all, apply_ops, apply_patch, ops_valid, record_applicable, record_end_cursor,
    record_output,
};
use crate::control::{control_wf, encode_ops, push_bytes, views_of, Control, ControlView};
use crate::laws::lemma_round_trip;
use crate::PatchError;

verus! {

/// What the brotli encoder, at this library's fixed quality and window,
/// produces for a given input: a function of the input bytes alone.
pub uninterp spec fn compressed_of(s: Seq<u8>) -> Seq<u8>;

/// What the brotli decoder recovers from a given stream, or nothing when
/// the stream is not well-formed brotli.
pub uninterp spec fn decompressed_of(s: Seq<u8>) -> Option<Seq<u8>>;

/// The SHA-256 digest of a byte sequence: 32 bytes, a function of the input
/// bytes alone.
pub uninterp spec fn sha256_of(s: Seq<u8>) -> Seq<u8>;

/// Relies on brotli::BrotliCompress: the encoding is a deterministic
/// function of the input bytes and the fixed parameters, and decoding the
/// produced stream (brotli::BrotliDecompress) is lossless — it returns the
/// input.  Compressing to an in-memory sink does not fail.
#[verifier::external_body]
fn brotli_compress(input: &Vec<u8>) -> (r: Vec<u8>)
    ensures
        r@ == compressed_of(input@),
        decompressed_of(r@) == Some(input@),
{
    let mut out: Vec<u8> = Vec::new();
    let mut params = brotli::enc::BrotliEncoderInitParams();
    params.quality = 9;
    let mut reader: &[u8] = &input[..];
    brotli::BrotliCompress(&mut reader, &mut out, &params)
        .expect("compressing to memory does not fail");
    out
}

/// Relies on brotli::BrotliDecompress: decoding is a function of the input
/// stream alone, and a malformed stream is reported as an error.
#[verifier::external_body]
fn brotli_decompress(input: &Vec<u8>) -> (r: Option<Vec<u8>>)
    ensures
        match r {
            Some(v) => decompressed_of(input@) == Some(v@),
            None => decompressed_of(input@) is None,
        },
{
    let mut out: Vec<u8> = Vec::new();
    let mut reader: &[u8] = &input[..];
    match brotli::BrotliDecompress(&mut reader, &mut out) {
        Ok(()) => Some(out),
        Err(_) => None,
    }
}

/// Relies on bidiff::diff with bidiff::Translator: the produced control
/// operations, replayed in order against the old bytes with the cursor at
/// zero — add bytes summed with old bytes modulo 256 while the cursor
/// advances, copy bytes verbatim, then the signed seek — reconstruct the
/// new bytes exactly, and every add segment and every seek keeps the cursor
/// inside the old bytes (bidiff's own assert_cycle replays its output under
/// exactly these rules).  The old bytes must not be empty: the suffix-array
/// backend behind bidiff::diff panics on an empty input.
#[verifier::external_body]
fn diff_ops(older: &Vec<u8>, newer: &Vec<u8>) -> (r: Vec<Control>)
    requires
        older@.len() > 0,
    ensures
        ops_valid(older@, 0, views_of(r@)),
        apply_ops(older@, 0, views_of(r@)) == newer@,
{
    let mut ops: Vec<Control> = Vec::new();
    let mut translator = bidiff::Translator::new(
        &older[..],
        &newer[..],
        |c: &bidiff::Control| -> Result<(), std::io::Error> {
            ops.push(Control { add: c.add.to_vec(), copy: c.copy.to_vec(), seek: c.seek });
            Ok(())
        },
    );
    bidiff::diff(&older[..], &newer[..], &bidiff::DiffParams::default(), |m| {
        translator.translate(m)
    }).expect("the control sink does not fail");
    translator.close().expect("the control sink does not fail");
    ops
}

/// Relies on hmac_sha256::Hash::hash: the SHA-256 digest, 32 bytes,
/// determined by the input bytes alone.
#[verifier::external_body]
fn sha256(data: &Vec<u8>) -> (r: Vec<u8>)
    ensures
        r@ == sha256_of(data@),
        r@.len() == 32,
{
    hmac_sha256::Hash::hash(&data[..]).to_vec()
}

/// Byte-for-byte comparison of two vectors.
fn bytes_equal(a: &Vec<u8>, b: &Vec<u8>) -> (r: bool)
    ensures
        r <==> a@ == b@,
{
    if a.len() != b.len() {
        return false;
    }
    let mut i: usize = 0;
    while i < a.len()
        invariant
            i <= a@.len(),
            a@.len() == b@.len(),
            forall|j: int| 0 <= j < i ==> a@[j] == b@[j],
        decreases a@.len() - i,
    {
        if a[i] != b[i] {
            return false;
        }
        i = i + 1;
    }
    proof {
        assert(a@ =~= b@);
    }
    true
}

/// Compares an expected digest with an actual one; disagreement is the
/// distinct `VerificationMismatch` failure.
pub fn verify_digest(expected: &Vec<u8>, actual: &Vec<u8>) -> (r: Result<(), PatchError>)
    ensures
        r is Ok <==> expected@ == actual@,
        r is Err ==> r->Err_0 == PatchError::VerificationMismatch,
{
    if bytes_equal(expected, actual) {
        Ok(())
    } else {
        Err(PatchError::VerificationMismatch)
    }
}

/// Computes a compressed patch that turns `older` into `newer`: the external
/// diff generator's operation sequence, serialized as control records, then
/// wrapped in the compression envelope.  Unwrapping the envelope gives a raw
/// record stream whose replay against `older` yields exactly `newer`.
pub fn make_patch(older: &Vec<u8>, newer: &Vec<u8>) -> (r: Vec<u8>)
    ensures
        decompressed_of(r@) matches Some(raw) && apply_all(raw, older@, 0) == Some(newer@),
{
    let ops: Vec<Control> = if older.len() == 0 {
        // with nothing to diff against, one copy-only record carries the
        // whole target
        let mut copy: Vec<u8> = Vec::new();
        push_bytes(&mut copy, newer);
        let clen = copy.len();
        proof {
            assert(copy@.len() == clen as nat);
        }
        let mut ops: Vec<Control> = Vec::new();
        ops.push(Control { add: Vec::new(), copy, seek: 0 });
        proof {
            let vs = views_of(ops@);
            assert(vs[0] == ops@[0]@);
            assert(vs[0].copy =~= newer@);
            assert(vs[0].copy.len() <= usize::MAX);
            assert(vs[0].add.len() == 0);
            assert(vs[0].seek == 0);
            assert(control_wf(vs[0]));
            assert(record_applicable(older@, 0, vs[0]));
            assert(record_end_cursor(0, vs[0]) == 0);
            assert(vs.skip(1) =~= Seq::<ControlView>::empty());
            assert(ops_valid(older@, 0, vs.skip(1)));
            assert(ops_valid(older@, 0, vs));
            assert(record_output(older@, 0, vs[0]) =~= newer@);
            assert(apply_ops(older@, 0, vs.skip(1)) =~= Seq::<u8>::empty());
            assert(apply_ops(older@, 0, vs) =~= newer@);
        }
        ops
    } else {
        diff_ops(older, newer)
    };
    let raw = encode_ops(&ops);
    proof {
        lemma_round_trip(older@, 0, views_of(ops@));
    }
    brotli_compress(&raw)
}

/// Applies a compressed patch to `older`: unwraps the compression envelope
/// and replays the record stream.  Succeeds exactly when the envelope
/// decodes and the record stream replays against `older`; anything else is
/// `CorruptPatch`.
pub fn apply_compressed(patch: &Vec<u8>, older: &Vec<u8>) -> (r: Result<Vec<u8>, PatchError>)
    ensures
        match r {
            Ok(out) => decompressed_of(patch@) matches Some(raw) && apply_all(raw, older@, 0)
                == Some(out@),
            Err(e) => e == PatchError::CorruptPatch && (decompressed_of(patch@) is None
                || (decompressed_of(patch@) matches Some(raw) && apply_all(raw, older@, 0)
                is None)),
        },
{
    match brotli_decompress(patch) {
        None => Err(PatchError::CorruptPatch),
        Some(raw) => apply_patch(&raw, older),
    }
}

/// What one round-trip self check reports: the input sizes, the compressed
/// patch's size, and the target's digest.
pub struct CycleReport {
    pub older_size: usize,
    pub newer_size: usize,
    pub patch_size: usize,
    pub target_digest: Vec<u8>,
}

/// Runs the full cycle in memory: computes the patch from `older` to
/// `newer`, applies it back to `older`, and checks the reconstruction's
/// digest against the target's.  The reconstruction provably equals the
/// target, so the digests always agree and the check always succeeds; the
/// reported sizes and digest are exact.
pub fn cycle(older: &Vec<u8>, newer: &Vec<u8>) -> (r: Result<CycleReport, PatchError>)
    ensures
        r matches Ok(rep) && rep.older_size == older@.len() && rep.newer_size == newer@.len()
            && rep.target_digest@ == sha256_of(newer@),
{
    let patch = make_patch(older, newer);
    let fresh = match apply_compressed(&patch, older) {
        Ok(v) => v,
        Err(_) => {
            return Err(PatchError::CorruptPatch);
        },
    };
    assert(fresh@ == newer@);
    let target_digest = sha256(newer);
    let fresh_digest = sha256(&fresh);
    match verify_digest(&target_digest, &fresh_digest) {
        Ok(()) => Ok(
            CycleReport {
                older_size: older.len(),
                newer_size: newer.len(),
                patch_size: patch.len(),
                target_digest,
            },
        ),
        Err(e) => Err(e),
    }
}

} // verus!
