//! The format's laws: serializing an operation sequence and replaying the
//! bytes reproduces exactly the sequence's output (round trip); a degenerate
//! record is legal and does nothing; and a stream cut anywhere but a record
//! boundary is rejected as corrupt.

use vstd::prelude::*;

use crate::apply::{
    apply_all, apply_ops, opt_prepend, ops_valid, parse_record, record_applicable,
    record_end_cursor, record_output,
};
use crate::control::{control_wf, lemma_patch_bytes_singleton, patch_bytes, record_bytes, ControlView};
use crate::varint::{
    lemma_all_continuation_no_varint, lemma_parse_of_varint_bytes, lemma_varint_bytes_structure,
    lemma_varint_prefix_incomplete, lemma_zigzag_bound, lemma_zigzag_roundtrip, parse_varint,
    varint_bytes, zigzag,
};

verus! {

/// A well-formed record followed by anything parses back to itself, and the
/// parse consumes exactly the record's own bytes.
pub proof fn lemma_parse_of_record_bytes(c: ControlView, tail: Seq<u8>)
    requires
        control_wf(c),
    ensures
        parse_record(record_bytes(c) + tail) == Some((c, record_bytes(c).len() as int)),
        record_bytes(c).len() >= 3,
{
    let al = c.add.len();
    let cl = c.copy.len();
    let sv = zigzag(c.seek);
    let vb1 = varint_bytes(al);
    let vb2 = varint_bytes(cl);
    let vb3 = varint_bytes(sv);
    let n1 = vb1.len() as int;
    let n2 = vb2.len() as int;
    let n3 = vb3.len() as int;
    let s = record_bytes(c) + tail;

    lemma_varint_bytes_structure(al);
    lemma_varint_bytes_structure(cl);
    lemma_varint_bytes_structure(sv);
    lemma_zigzag_bound(c.seek);
    lemma_zigzag_roundtrip(c.seek);

    assert(s =~= vb1 + (c.add + vb2 + c.copy + vb3 + tail));
    lemma_parse_of_varint_bytes(al, c.add + vb2 + c.copy + vb3 + tail);
    assert(parse_varint(s) == Some((al, n1)));
    assert(s.len() >= n1 + al);
    assert(s.subrange(n1, n1 + al) =~= c.add);

    assert(s.skip(n1 + al) =~= vb2 + (c.copy + vb3 + tail));
    lemma_parse_of_varint_bytes(cl, c.copy + vb3 + tail);
    assert(parse_varint(s.skip(n1 + al)) == Some((cl, n2)));
    assert(s.len() >= n1 + al + n2 + cl);
    assert(s.subrange(n1 + al + n2, n1 + al + n2 + cl) =~= c.copy);

    assert(s.skip(n1 + al + n2 + cl) =~= vb3 + tail);
    lemma_parse_of_varint_bytes(sv, tail);
    assert(parse_varint(s.skip(n1 + al + n2 + cl)) == Some((sv, n3)));

    assert(record_bytes(c).len() == n1 + al + n2 + cl + n3);
    assert(parse_record(s) == Some((c, n1 + al + n2 + cl + n3)));
}

/// Round trip: replaying the serialized form of a valid operation sequence
/// reconstructs exactly the sequence's own output — for every base, every
/// cursor, and every operation sequence the base admits.
pub proof fn lemma_round_trip(base: Seq<u8>, cursor: int, ops: Seq<ControlView>)
    requires
        ops_valid(base, cursor, ops),
    ensures
        apply_all(patch_bytes(ops), base, cursor) == Some(apply_ops(base, cursor, ops)),
    decreases ops.len(),
{
    if ops.len() == 0 {
    } else {
        let c = ops[0];
        let rest = ops.skip(1);
        let s = patch_bytes(ops);
        lemma_parse_of_record_bytes(c, patch_bytes(rest));
        let ln = record_bytes(c).len() as int;
        assert(s == record_bytes(c) + patch_bytes(rest));
        assert(parse_record(s) == Some((c, ln)));
        assert(s.skip(ln) =~= patch_bytes(rest));
        lemma_round_trip(base, record_end_cursor(cursor, c), rest);
        assert(apply_all(s, base, cursor) == opt_prepend(
            record_output(base, cursor, c),
            apply_all(patch_bytes(rest), base, record_end_cursor(cursor, c)),
        ));
    }
}

/// The record that does nothing: no add bytes, no copy bytes, no seek.
pub open spec fn degenerate_record() -> ControlView {
    ControlView { add: Seq::empty(), copy: Seq::empty(), seek: 0 }
}

/// A degenerate record is legal anywhere, contributes no output bytes,
/// leaves the cursor exactly where it stood, and occupies three zero bytes
/// on the wire.
pub proof fn lemma_degenerate_record(base: Seq<u8>, cursor: int)
    requires
        0 <= cursor <= usize::MAX,
    ensures
        control_wf(degenerate_record()),
        record_applicable(base, cursor, degenerate_record()),
        record_output(base, cursor, degenerate_record()) == Seq::<u8>::empty(),
        record_end_cursor(cursor, degenerate_record()) == cursor,
        record_bytes(degenerate_record()) == seq![0u8, 0u8, 0u8],
{
    let d = degenerate_record();
    assert(record_output(base, cursor, d) =~= Seq::<u8>::empty());
    assert(varint_bytes(0) == seq![0u8]);
    assert(zigzag(0) == 0);
    assert(record_bytes(d) =~= seq![0u8, 0u8, 0u8]);
}

/// A strict, nonempty prefix of one record's bytes does not parse: wherever
/// the cut falls — inside a length varint, inside the add or copy payload,
/// or inside the seek varint — the read fails.
pub proof fn lemma_record_prefix_unparseable(c: ControlView, m: int)
    requires
        control_wf(c),
        1 <= m < record_bytes(c).len(),
    ensures
        parse_record(record_bytes(c).take(m)) is None,
{
    let al = c.add.len();
    let cl = c.copy.len();
    let sv = zigzag(c.seek);
    let vb1 = varint_bytes(al);
    let vb2 = varint_bytes(cl);
    let vb3 = varint_bytes(sv);
    let n1 = vb1.len() as int;
    let n2 = vb2.len() as int;
    let n3 = vb3.len() as int;
    let rb = record_bytes(c);
    let p = rb.take(m);

    lemma_varint_bytes_structure(al);
    lemma_varint_bytes_structure(cl);
    lemma_varint_bytes_structure(sv);
    lemma_zigzag_bound(c.seek);

    if m < n1 {
        assert(p =~= vb1.take(m));
        lemma_varint_prefix_incomplete(al, m);
        assert(parse_varint(p) is None);
    } else if m < n1 + al {
        assert(p =~= vb1 + c.add.take(m - n1));
        lemma_parse_of_varint_bytes(al, c.add.take(m - n1));
        assert(parse_varint(p) == Some((al, n1)));
        assert(p.len() < n1 + al);
    } else if m < n1 + al + n2 {
        assert(p =~= vb1 + (c.add + vb2.take(m - n1 - al)));
        lemma_parse_of_varint_bytes(al, c.add + vb2.take(m - n1 - al));
        assert(parse_varint(p) == Some((al, n1)));
        assert(p.len() >= n1 + al);
        assert(p.skip(n1 + al) =~= vb2.take(m - n1 - al));
        lemma_varint_prefix_incomplete(cl, m - n1 - al);
        assert(parse_varint(p.skip(n1 + al)) is None);
    } else if m < n1 + al + n2 + cl {
        assert(p =~= vb1 + (c.add + (vb2 + c.copy.take(m - n1 - al - n2))));
        lemma_parse_of_varint_bytes(al, c.add + (vb2 + c.copy.take(m - n1 - al - n2)));
        assert(parse_varint(p) == Some((al, n1)));
        assert(p.skip(n1 + al) =~= vb2 + c.copy.take(m - n1 - al - n2));
        lemma_parse_of_varint_bytes(cl, c.copy.take(m - n1 - al - n2));
        assert(parse_varint(p.skip(n1 + al)) == Some((cl, n2)));
        assert(p.len() < n1 + al + n2 + cl);
    } else {
        assert(p =~= vb1 + (c.add + (vb2 + (c.copy + vb3.take(m - n1 - al - n2 - cl)))));
        lemma_parse_of_varint_bytes(al, c.add + (vb2 + (c.copy + vb3.take(m - n1 - al - n2 - cl))));
        assert(parse_varint(p) == Some((al, n1)));
        assert(p.skip(n1 + al) =~= vb2 + (c.copy + vb3.take(m - n1 - al - n2 - cl)));
        lemma_parse_of_varint_bytes(cl, c.copy + vb3.take(m - n1 - al - n2 - cl));
        assert(parse_varint(p.skip(n1 + al)) == Some((cl, n2)));
        assert(p.len() >= n1 + al + n2 + cl);
        assert(p.skip(n1 + al + n2 + cl) =~= vb3.take(m - n1 - al - n2 - cl));
        lemma_varint_prefix_incomplete(sv, m - n1 - al - n2 - cl);
        assert(parse_varint(p.skip(n1 + al + n2 + cl)) is None);
    }
}

/// Whether offset `k` of the serialized stream is the structural start of a
/// record (or the stream's very start or end).
pub open spec fn is_record_boundary(ops: Seq<ControlView>, k: int) -> bool {
    exists|i: int| 0 <= i <= ops.len() && k == patch_bytes(ops.take(i)).len()
}

/// Truncation detection: cutting the serialized form of a valid operation
/// sequence at any offset that is not a record boundary leaves a stream the
/// applier rejects — never a silent success.
#[verifier::rlimit(100)]
pub proof fn lemma_truncation_detected(
    base: Seq<u8>,
    cursor: int,
    ops: Seq<ControlView>,
    k: int,
)
    requires
        ops_valid(base, cursor, ops),
        0 <= k <= patch_bytes(ops).len(),
        !is_record_boundary(ops, k),
    ensures
        apply_all(patch_bytes(ops).take(k), base, cursor) is None,
    decreases ops.len(),
{
    assert(patch_bytes(ops.take(0)).len() == 0) by {
        assert(ops.take(0) =~= Seq::<ControlView>::empty());
    }
    if k == 0 {
        assert(is_record_boundary(ops, k));
    } else {
        assert(ops.len() > 0);
        let c = ops[0];
        let rest = ops.skip(1);
        let ln = record_bytes(c).len() as int;
        lemma_parse_of_record_bytes(c, patch_bytes(rest));
        assert(patch_bytes(ops) == record_bytes(c) + patch_bytes(rest));
        if k < ln {
            assert(patch_bytes(ops).take(k) =~= record_bytes(c).take(k));
            lemma_record_prefix_unparseable(c, k);
        } else if k == ln {
            assert(ops.take(1) =~= seq![c]);
            lemma_patch_bytes_singleton(c);
            assert(k == patch_bytes(ops.take(1)).len());
            assert(is_record_boundary(ops, k));
        } else {
            let p = patch_bytes(ops).take(k);
            assert(p =~= record_bytes(c) + patch_bytes(rest).take(k - ln));
            lemma_parse_of_record_bytes(c, patch_bytes(rest).take(k - ln));
            assert(parse_record(p) == Some((c, ln)));
            assert(p.skip(ln) =~= patch_bytes(rest).take(k - ln));
            assert(!is_record_boundary(rest, k - ln)) by {
                if is_record_boundary(rest, k - ln) {
                    let i = choose|i: int|
                        0 <= i <= rest.len() && k - ln == patch_bytes(rest.take(i)).len();
                    assert(ops.take(i + 1) =~= seq![c] + rest.take(i));
                    crate::control::lemma_patch_bytes_concat(seq![c], rest.take(i));
                    lemma_patch_bytes_singleton(c);
                    assert(k == patch_bytes(ops.take(i + 1)).len());
                    assert(is_record_boundary(ops, k));
                }
            }
            lemma_truncation_detected(base, record_end_cursor(cursor, c), rest, k - ln);
            assert(apply_all(p, base, cursor) == opt_prepend(
                record_output(base, cursor, c),
                apply_all(p.skip(ln), base, record_end_cursor(cursor, c)),
            ));
        }
    }
}

} // verus!
