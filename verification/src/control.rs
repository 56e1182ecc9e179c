//! Control records: the unit of the patch stream.  A record carries an add
//! segment (residual bytes combined with base bytes at the cursor), a copy
//! segment (literal output bytes), and a signed cursor seek, serialized as
//! `varint(add_len) · add · varint(copy_len) · copy · varint(seek)` with no
//! further framing.

use vstd::prelude::*;

use crate::varint::{encode_varint_i64, encode_varint_u64, varint_bytes, zigzag};

verus! {

/// One control operation of a patch stream.
pub struct Control {
    /// Residual bytes: each output byte is `(add[i] + base[cursor + i]) % 256`,
    /// and the base cursor advances over them.
    pub add: Vec<u8>,
    /// Literal output bytes, emitted verbatim after the add segment; the base
    /// cursor does not move over them.
    pub copy: Vec<u8>,
    /// Signed displacement applied to the base cursor after the add segment.
    pub seek: i64,
}

/// The mathematical image of a control operation.
pub ghost struct ControlView {
    pub add: Seq<u8>,
    pub copy: Seq<u8>,
    pub seek: int,
}

impl View for Control {
    type V = ControlView;

    open spec fn view(&self) -> ControlView {
        ControlView { add: self.add@, copy: self.copy@, seek: self.seek as int }
    }
}

/// A control view that an executable `Control` value can hold.
pub open spec fn control_wf(c: ControlView) -> bool {
    &&& c.add.len() <= usize::MAX
    &&& c.copy.len() <= usize::MAX
    &&& i64::MIN <= c.seek <= i64::MAX
}

/// The wire form of one control record.
pub open spec fn record_bytes(c: ControlView) -> Seq<u8> {
    varint_bytes(c.add.len()) + c.add + varint_bytes(c.copy.len()) + c.copy + varint_bytes(
        zigzag(c.seek),
    )
}

/// The views of a sequence of control operations.
pub open spec fn views_of(ops: Seq<Control>) -> Seq<ControlView> {
    ops.map_values(|c: Control| c@)
}

/// The wire form of a whole operation sequence: the records in order, with
/// no record count and no terminator.
pub open spec fn patch_bytes(ops: Seq<ControlView>) -> Seq<u8>
    decreases ops.len(),
{
    if ops.len() == 0 {
        Seq::empty()
    } else {
        record_bytes(ops[0]) + patch_bytes(ops.skip(1))
    }
}

/// Serialization distributes over concatenation of operation sequences.
pub proof fn lemma_patch_bytes_concat(a: Seq<ControlView>, b: Seq<ControlView>)
    ensures
        patch_bytes(a + b) == patch_bytes(a) + patch_bytes(b),
    decreases a.len(),
{
    if a.len() == 0 {
        assert(a + b =~= b);
        assert(patch_bytes(a) + patch_bytes(b) =~= patch_bytes(b));
    } else {
        lemma_patch_bytes_concat(a.skip(1), b);
        assert((a + b).skip(1) =~= a.skip(1) + b);
        assert(record_bytes(a[0]) + (patch_bytes(a.skip(1)) + patch_bytes(b)) =~= (record_bytes(
            a[0],
        ) + patch_bytes(a.skip(1))) + patch_bytes(b));
    }
}

/// The wire form of a one-operation sequence is that record's bytes.
pub proof fn lemma_patch_bytes_singleton(c: ControlView)
    ensures
        patch_bytes(seq![c]) == record_bytes(c),
{
    assert(seq![c].skip(1) =~= Seq::<ControlView>::empty());
    assert(record_bytes(c) + patch_bytes(Seq::<ControlView>::empty()) =~= record_bytes(c));
}

/// Appends every byte of `src` to `out`.
pub(crate) fn push_bytes(out: &mut Vec<u8>, src: &Vec<u8>)
    ensures
        final(out)@ == old(out)@ + src@,
{
    let ghost out0 = out@;
    let mut i: usize = 0;
    while i < src.len()
        invariant
            i <= src@.len(),
            out@ == out0 + src@.take(i as int),
        decreases src@.len() - i,
    {
        out.push(src[i]);
        proof {
            assert(src@.take(i + 1) =~= src@.take(i as int) + seq![src@[i as int]]);
            assert(out@ =~= out0 + src@.take(i + 1));
        }
        i = i + 1;
    }
    proof {
        assert(src@.take(src@.len() as int) =~= src@);
    }
}

/// Writes one control record to `out` in wire order: `varint(add_len)`, the
/// add bytes, `varint(copy_len)`, the copy bytes, `varint(seek, signed)`.
/// The output is a function of the record alone, so encoding is
/// deterministic.
pub fn write_control(out: &mut Vec<u8>, c: &Control)
    ensures
        final(out)@ == old(out)@ + record_bytes(c@),
{
    let ghost out0 = out@;
    encode_varint_u64(c.add.len() as u64, out);
    proof {
        assert((c.add.len() as u64) as nat == c.add@.len());
    }
    push_bytes(out, &c.add);
    encode_varint_u64(c.copy.len() as u64, out);
    proof {
        assert((c.copy.len() as u64) as nat == c.copy@.len());
    }
    push_bytes(out, &c.copy);
    encode_varint_i64(c.seek, out);
    proof {
        assert(out@ =~= out0 + record_bytes(c@));
    }
}

/// Serializes an ordered operation sequence: each record in order, nothing
/// else.  The result is a function of the operation views alone, so two
/// encodings of the same sequence are byte-identical.
pub fn encode_ops(ops: &Vec<Control>) -> (r: Vec<u8>)
    ensures
        r@ == patch_bytes(views_of(ops@)),
{
    let ghost vs = views_of(ops@);
    let mut out: Vec<u8> = Vec::new();
    let mut i: usize = 0;
    proof {
        assert(vs.take(0) =~= Seq::<ControlView>::empty());
    }
    while i < ops.len()
        invariant
            i <= ops@.len(),
            vs == views_of(ops@),
            vs.len() == ops@.len(),
            out@ == patch_bytes(vs.take(i as int)),
        decreases ops@.len() - i,
    {
        let ghost pre = out@;
        write_control(&mut out, &ops[i]);
        proof {
            assert(vs[i as int] == ops@[i as int]@);
            assert(vs.take(i + 1) =~= vs.take(i as int) + seq![vs[i as int]]);
            lemma_patch_bytes_concat(vs.take(i as int), seq![vs[i as int]]);
            lemma_patch_bytes_singleton(vs[i as int]);
        }
        i = i + 1;
    }
    proof {
        assert(vs.take(vs.len() as int) =~= vs);
    }
    out
}

} // verus!
