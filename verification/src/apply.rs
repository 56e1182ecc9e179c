//! The patch applier: streams control records out of a raw (decompressed)
//! patch byte sequence and reconstructs the target against a random-access
//! base.  End-of-input exactly at the start of a record is the stream's one
//! valid terminator; end-of-input or malformed data anywhere else is
//! `CorruptPatch`.

use vstd::prelude::*;

use crate::PatchError;
use crate::control::{control_wf, ControlView};
use crate::varint::{lemma_zigzag_roundtrip, parse_varint, unzigzag};
use crate::varint::decode_varint_i64;
use crate::varint::decode_varint_u64;

verus! {

/// Reads one record at the head of `s`: the control operation and the number
/// of bytes it occupies, or nothing if `s` ends or turns malformed anywhere
/// inside the record.
pub open spec fn parse_record(s: Seq<u8>) -> Option<(ControlView, int)> {
    match parse_varint(s) {
        None => None,
        Some((al, n1)) => if al > usize::MAX || s.len() < n1 + al {
            None
        } else {
            let add = s.subrange(n1, n1 + al);
            match parse_varint(s.skip(n1 + al)) {
                None => None,
                Some((cl, n2)) => if cl > usize::MAX || s.len() < n1 + al + n2 + cl {
                    None
                } else {
                    let copy = s.subrange(n1 + al + n2, n1 + al + n2 + cl);
                    match parse_varint(s.skip(n1 + al + n2 + cl)) {
                        None => None,
                        Some((sv, n3)) => Some(
                            (
                                ControlView { add, copy, seek: unzigzag(sv) },
                                n1 + al + n2 + cl + n3,
                            ),
                        ),
                    }
                },
            }
        },
    }
}

/// Where the base cursor stands after one record: it advances over the add
/// segment, then the seek displacement is added.
pub open spec fn record_end_cursor(cursor: int, c: ControlView) -> int {
    cursor + c.add.len() + c.seek
}

/// Whether one record can be replayed at `cursor`: its add segment must lie
/// inside the base, and the cursor it leaves behind must be a machine-
/// representable position.  A cursor beyond the end of the base is itself
/// legal as long as no add byte is read there.
pub open spec fn record_applicable(base: Seq<u8>, cursor: int, c: ControlView) -> bool {
    &&& 0 <= cursor <= usize::MAX
    &&& (c.add.len() == 0 || cursor + c.add.len() <= base.len())
    &&& 0 <= record_end_cursor(cursor, c) <= usize::MAX
}

/// The bytes one record contributes to the output: the add segment combined
/// with the base bytes under the cursor, modulo 256, then the copy segment
/// verbatim.
pub open spec fn record_output(base: Seq<u8>, cursor: int, c: ControlView) -> Seq<u8> {
    Seq::new(c.add.len(), |i: int| ((c.add[i] + base[cursor + i]) % 256) as u8) + c.copy
}

/// Prepends a known prefix to the outcome of applying the rest of a stream.
pub open spec fn opt_prepend(prefix: Seq<u8>, rest: Option<Seq<u8>>) -> Option<Seq<u8>> {
    match rest {
        None => None,
        Some(t) => Some(prefix + t),
    }
}

/// The meaning of a raw patch byte stream against `base` with the cursor at
/// `cursor`: the reconstructed output, or nothing if the stream is corrupt.
/// An empty stream is the valid terminator and yields no further output.
pub open spec fn apply_all(s: Seq<u8>, base: Seq<u8>, cursor: int) -> Option<Seq<u8>>
    decreases s.len(),
{
    if s.len() == 0 {
        Some(Seq::empty())
    } else {
        match parse_record(s) {
            None => None,
            Some((c, n)) => if 1 <= n <= s.len() && record_applicable(base, cursor, c) {
                opt_prepend(
                    record_output(base, cursor, c),
                    apply_all(s.skip(n), base, record_end_cursor(cursor, c)),
                )
            } else {
                None
            },
        }
    }
}

/// Whether an operation sequence can be replayed against `base` starting at
/// `cursor`: every record is well formed and applicable where it stands.
pub open spec fn ops_valid(base: Seq<u8>, cursor: int, ops: Seq<ControlView>) -> bool
    decreases ops.len(),
{
    if ops.len() == 0 {
        true
    } else {
        &&& control_wf(ops[0])
        &&& record_applicable(base, cursor, ops[0])
        &&& ops_valid(base, record_end_cursor(cursor, ops[0]), ops.skip(1))
    }
}

/// The output of replaying an operation sequence against `base` starting at
/// `cursor`.
pub open spec fn apply_ops(base: Seq<u8>, cursor: int, ops: Seq<ControlView>) -> Seq<u8>
    decreases ops.len(),
{
    if ops.len() == 0 {
        Seq::empty()
    } else {
        record_output(base, cursor, ops[0]) + apply_ops(
            base,
            record_end_cursor(cursor, ops[0]),
            ops.skip(1),
        )
    }
}

/// The add-segment output read straight off the patch bytes: `count` bytes,
/// each the sum modulo 256 of the payload byte at `p_add + t` and the base
/// byte at `cursor + t`.
pub open spec fn add_prefix(p: Seq<u8>, p_add: int, base: Seq<u8>, cursor: int, count: int) -> Seq<
    u8,
> {
    Seq::new(count as nat, |t: int| ((p[p_add + t] + base[cursor + t]) % 256) as u8)
}

/// Replays the record at `patch[pos..]` (there is at least one byte there):
/// appends its output bytes to `out` and returns the position just past the
/// record together with the cursor it leaves, or `CorruptPatch` if the
/// record is malformed, truncated, or not applicable at `cursor`.
#[verifier::rlimit(100)]
fn apply_one_record(
    patch: &Vec<u8>,
    pos: usize,
    base: &Vec<u8>,
    cursor: usize,
    out: &mut Vec<u8>,
) -> (r: Result<(usize, usize), PatchError>)
    requires
        pos < patch@.len(),
    ensures
        ({
            let s = patch@.skip(pos as int);
            match r {
                Ok(p) => {
                    &&& parse_record(s) matches Some(q) && p.0 == pos + q.1
                        && record_applicable(base@, cursor as int, q.0) && p.1
                        == record_end_cursor(cursor as int, q.0) && final(out)@ == old(out)@
                        + record_output(base@, cursor as int, q.0)
                    &&& pos < p.0 <= patch@.len()
                },
                Err(e) => {
                    &&& e == PatchError::CorruptPatch
                    &&& (parse_record(s) is None || (parse_record(s) matches Some(q)
                        && !record_applicable(base@, cursor as int, q.0)))
                },
            }
        }),
{
    let ghost s = patch@.skip(pos as int);
    let ghost out0 = out@;

    // add segment length
    let (al64, p1) = match decode_varint_u64(patch, pos) {
        Ok(v) => v,
        Err(_) => {
            return Err(PatchError::CorruptPatch);
        },
    };
    if al64 > usize::MAX as u64 {
        return Err(PatchError::CorruptPatch);
    }
    let al = al64 as usize;
    proof {
        assert(al as nat == al64 as nat);
        assert(s.len() == patch@.len() - pos);
    }
    if al > patch.len() - p1 {
        return Err(PatchError::CorruptPatch);
    }
    if al > 0 {
        if cursor > base.len() || al > base.len() - cursor {
            // whatever the rest of the record holds, its add segment has
            // length `al`, so it cannot be replayed at this cursor
            proof {
                if parse_record(s) is Some {
                    let q = parse_record(s)->Some_0;
                    assert(q.0.add == s.subrange(p1 - pos, p1 - pos + al));
                    assert(q.0.add.len() == al);
                }
            }
            return Err(PatchError::CorruptPatch);
        }
    }

    // add segment: output = payload + base, byte by byte, cursor advancing
    let mut j: usize = 0;
    proof {
        assert(out@ =~= out0 + add_prefix(patch@, p1 as int, base@, cursor as int, 0));
    }
    while j < al
        invariant
            j <= al,
            pos < p1 <= patch@.len(),
            patch@.len() <= usize::MAX,
            al == 0 || base@.len() <= usize::MAX,
            al <= patch@.len() - p1,
            al == 0 || cursor + al <= base@.len(),
            out@ == out0 + add_prefix(patch@, p1 as int, base@, cursor as int, j as int),
        decreases al - j,
    {
        let pb = patch[p1 + j];
        let bb = base[cursor + j];
        out.push((((pb as u16) + (bb as u16)) % 256) as u8);
        proof {
            assert(add_prefix(patch@, p1 as int, base@, cursor as int, j + 1) =~= add_prefix(
                patch@,
                p1 as int,
                base@,
                cursor as int,
                j as int,
            ) + seq![((patch@[p1 + j] + base@[cursor + j]) % 256) as u8]);
            assert(out@ =~= out0 + add_prefix(patch@, p1 as int, base@, cursor as int, j + 1));
        }
        j = j + 1;
    }
    let p2 = p1 + al;

    // copy segment length
    let (cl64, p3) = match decode_varint_u64(patch, p2) {
        Ok(v) => v,
        Err(_) => {
            proof {
                assert(s.skip(p1 - pos + al) =~= patch@.skip(p2 as int));
            }
            return Err(PatchError::CorruptPatch);
        },
    };
    proof {
        assert(s.skip(p1 - pos + al) =~= patch@.skip(p2 as int));
    }
    if cl64 > usize::MAX as u64 {
        out.truncate(0);
        return Err(PatchError::CorruptPatch);
    }
    let cl = cl64 as usize;
    if cl > patch.len() - p3 {
        out.truncate(0);
        return Err(PatchError::CorruptPatch);
    }

    // copy segment: literal bytes, no base interaction
    let ghost out1 = out@;
    let mut j2: usize = 0;
    proof {
        assert(out@ =~= out1 + patch@.subrange(p3 as int, p3 as int));
    }
    while j2 < cl
        invariant
            j2 <= cl,
            p3 <= patch@.len(),
            patch@.len() <= usize::MAX,
            cl <= patch@.len() - p3,
            out@ == out1 + patch@.subrange(p3 as int, p3 + j2),
        decreases cl - j2,
    {
        let b = patch[p3 + j2];
        out.push(b);
        proof {
            assert(patch@.subrange(p3 as int, p3 + j2 + 1) =~= patch@.subrange(p3 as int, p3 + j2)
                + seq![patch@[p3 + j2]]);
            assert(out@ =~= out1 + patch@.subrange(p3 as int, p3 + j2 + 1));
        }
        j2 = j2 + 1;
    }
    let p4 = p3 + cl;

    // seek
    let (sk, p5) = match decode_varint_i64(patch, p4) {
        Ok(v) => v,
        Err(_) => {
            proof {
                assert(s.skip(p3 - pos + cl) =~= patch@.skip(p4 as int));
            }
            return Err(PatchError::CorruptPatch);
        },
    };
    proof {
        assert(s.skip(p3 - pos + cl) =~= patch@.skip(p4 as int));
        lemma_zigzag_roundtrip(sk as int);
    }

    // the record parses; name its parts
    let ghost cv = ControlView {
        add: s.subrange(p1 - pos, p1 - pos + al),
        copy: s.subrange(p3 - pos, p3 - pos + cl),
        seek: sk as int,
    };
    let ghost n = p5 - pos;
    proof {
        assert(parse_record(s) == Some((cv, n)));
        assert(cv.add =~= patch@.subrange(p1 as int, p2 as int));
        assert(cv.copy =~= patch@.subrange(p3 as int, p4 as int));
        assert(cv.add.len() == al);
        assert(add_prefix(patch@, p1 as int, base@, cursor as int, al as int) =~= Seq::new(
            cv.add.len(),
            |i: int| ((cv.add[i] + base@[cursor + i]) % 256) as u8,
        ));
        assert(out@ =~= out0 + record_output(base@, cursor as int, cv));
    }

    // apply the seek to the cursor the add segment left behind
    let base_c = cursor + al;
    let bc = base_c as u64;
    let newc: usize;
    if sk >= 0 {
        let vu = sk as u64;
        if vu > u64::MAX - bc {
            return Err(PatchError::CorruptPatch);
        }
        let sum = bc + vu;
        if sum > usize::MAX as u64 {
            return Err(PatchError::CorruptPatch);
        }
        newc = sum as usize;
    } else {
        let mag = (-(sk + 1)) as u64 + 1;
        proof {
            assert(mag as int == -(sk as int));
        }
        if mag > bc {
            return Err(PatchError::CorruptPatch);
        }
        newc = (bc - mag) as usize;
    }
    proof {
        assert(newc as int == record_end_cursor(cursor as int, cv));
        assert(record_applicable(base@, cursor as int, cv));
    }
    Ok((p5, newc))
}

/// Applies a raw (decompressed) patch byte stream to `base` and returns the
/// reconstructed target.  Succeeds exactly when the stream is a well-formed
/// sequence of records that can be replayed against `base`; end-of-input at
/// a record boundary terminates it, and any other end or malformation is
/// `CorruptPatch`.
pub fn apply_patch(patch: &Vec<u8>, base: &Vec<u8>) -> (r: Result<Vec<u8>, PatchError>)
    ensures
        match r {
            Ok(out) => apply_all(patch@, base@, 0) == Some(out@),
            Err(e) => e == PatchError::CorruptPatch && apply_all(patch@, base@, 0) is None,
        },
{
    let mut out: Vec<u8> = Vec::new();
    let mut pos: usize = 0;
    let mut cursor: usize = 0;
    proof {
        assert(patch@.skip(0) =~= patch@);
        if apply_all(patch@, base@, 0) is Some {
            let t = apply_all(patch@, base@, 0)->Some_0;
            assert(Seq::<u8>::empty() + t =~= t);
        }
    }
    while pos < patch.len()
        invariant
            pos <= patch@.len(),
            opt_prepend(out@, apply_all(patch@.skip(pos as int), base@, cursor as int))
                == apply_all(patch@, base@, 0),
        decreases patch@.len() - pos,
    {
        let ghost s = patch@.skip(pos as int);
        let ghost out_pre = out@;
        match apply_one_record(patch, pos, base, cursor, &mut out) {
            Ok((p2, c2)) => {
                proof {
                    let q = parse_record(s)->Some_0;
                    assert(s.skip(q.1) =~= patch@.skip(p2 as int));
                    assert(apply_all(s, base@, cursor as int) == opt_prepend(
                        record_output(base@, cursor as int, q.0),
                        apply_all(patch@.skip(p2 as int), base@, c2 as int),
                    ));
                    if apply_all(patch@.skip(p2 as int), base@, c2 as int) is Some {
                        let t = apply_all(patch@.skip(p2 as int), base@, c2 as int)->Some_0;
                        assert(out_pre + (record_output(base@, cursor as int, q.0) + t) =~= (
                        out_pre + record_output(base@, cursor as int, q.0)) + t);
                    }
                }
                pos = p2;
                cursor = c2;
            },
            Err(_) => {
                proof {
                    assert(apply_all(s, base@, cursor as int) is None);
                }
                return Err(PatchError::CorruptPatch);
            },
        }
    }
    proof {
        assert(patch@.skip(pos as int) =~= Seq::<u8>::empty());
        assert(out@ + Seq::<u8>::empty() =~= out@);
    }
    Ok(out)
}

} // verus!
