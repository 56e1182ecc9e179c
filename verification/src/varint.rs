//! Variable-length integer codec: base-128 groups, one continuation bit per
//! byte, least-significant group first.  Signed values go through the
//! zigzag mapping first, so small magnitudes of either sign stay short.

use vstd::prelude::*;

use crate::PatchError;

verus! {

/// One more than the largest value a `u64` holds.
pub open spec fn u64_bound() -> nat {
    0x1_0000_0000_0000_0000
}

/// 128 raised to the power `k`.
pub open spec fn pow128(k: nat) -> nat
    decreases k,
{
    if k == 0 {
        1
    } else {
        128 * pow128((k - 1) as nat)
    }
}

/// The canonical varint encoding of `v`: low seven bits per byte, the high
/// bit set on every byte but the last.
pub open spec fn varint_bytes(v: nat) -> Seq<u8>
    decreases v,
{
    if v < 128 {
        seq![v as u8]
    } else {
        seq![((v % 128) + 128) as u8] + varint_bytes(v / 128)
    }
}

/// Whether `s` begins with a complete varint, that is, holds a terminating
/// (high-bit-clear) byte.
pub open spec fn has_varint(s: Seq<u8>) -> bool
    decreases s.len(),
{
    if s.len() == 0 {
        false
    } else if s[0] < 128 {
        true
    } else {
        has_varint(s.skip(1))
    }
}

/// The number of bytes of the varint at the head of `s` (meaningful only
/// when `has_varint(s)`).
pub open spec fn varint_len_of(s: Seq<u8>) -> int
    decreases s.len(),
{
    if s.len() == 0 {
        0
    } else if s[0] < 128 {
        1
    } else {
        1 + varint_len_of(s.skip(1))
    }
}

/// The value of the varint at the head of `s` (meaningful only when
/// `has_varint(s)`).  Non-canonical encodings (redundant leading groups)
/// decode by the same rule.
pub open spec fn varint_value_of(s: Seq<u8>) -> nat
    decreases s.len(),
{
    if s.len() == 0 {
        0
    } else if s[0] < 128 {
        s[0] as nat
    } else {
        (s[0] - 128) as nat + 128 * varint_value_of(s.skip(1))
    }
}

/// The outcome of reading one varint at the head of `s`: its value and its
/// byte length, or nothing if `s` lacks a terminator or the value does not
/// fit in 64 bits.
pub open spec fn parse_varint(s: Seq<u8>) -> Option<(nat, int)> {
    if has_varint(s) && varint_value_of(s) < u64_bound() {
        Some((varint_value_of(s), varint_len_of(s)))
    } else {
        None
    }
}

/// The zigzag mapping of a signed value onto the unsigned domain.
pub open spec fn zigzag(v: int) -> nat {
    if v >= 0 {
        (2 * v) as nat
    } else {
        (-2 * v - 1) as nat
    }
}

/// The inverse of the zigzag mapping.
pub open spec fn unzigzag(u: nat) -> int {
    if u % 2 == 0 {
        (u / 2) as int
    } else {
        -((u / 2) as int) - 1
    }
}

pub proof fn lemma_zigzag_roundtrip(v: int)
    ensures
        unzigzag(zigzag(v)) == v,
{
}

/// Zigzag keeps `i64` values within the `u64` domain.
pub proof fn lemma_zigzag_bound(v: int)
    requires
        i64::MIN <= v <= i64::MAX,
    ensures
        zigzag(v) < u64_bound(),
{
}

/// Every byte of a canonical varint but the last carries the continuation
/// bit; the last does not.
pub proof fn lemma_varint_bytes_structure(v: nat)
    ensures
        varint_bytes(v).len() >= 1,
        forall|j: int|
            0 <= j < varint_bytes(v).len() - 1 ==> #[trigger] varint_bytes(v)[j] >= 128,
        varint_bytes(v)[varint_bytes(v).len() - 1] < 128,
    decreases v,
{
    if v >= 128 {
        lemma_varint_bytes_structure(v / 128);
    }
}

/// A sequence of nothing but continuation bytes holds no complete varint.
pub proof fn lemma_all_continuation_no_varint(s: Seq<u8>)
    requires
        forall|j: int| 0 <= j < s.len() ==> s[j] >= 128,
    ensures
        !has_varint(s),
    decreases s.len(),
{
    if s.len() > 0 {
        lemma_all_continuation_no_varint(s.skip(1));
    }
}

/// Reading a canonical encoding out of a longer stream recovers the value
/// and the encoding's own length, whatever follows it.
pub proof fn lemma_parse_of_varint_bytes(v: nat, tail: Seq<u8>)
    ensures
        has_varint(varint_bytes(v) + tail),
        varint_len_of(varint_bytes(v) + tail) == varint_bytes(v).len(),
        varint_value_of(varint_bytes(v) + tail) == v,
    decreases v,
{
    let s = varint_bytes(v) + tail;
    if v < 128 {
        assert(s[0] == v as u8);
    } else {
        lemma_parse_of_varint_bytes(v / 128, tail);
        assert(s[0] == ((v % 128) + 128) as u8);
        assert(s.skip(1) =~= varint_bytes(v / 128) + tail);
        vstd::arithmetic::div_mod::lemma_fundamental_div_mod(v as int, 128);
    }
}

/// A strict prefix of a canonical varint holds no terminator.
pub proof fn lemma_varint_prefix_incomplete(v: nat, m: int)
    requires
        0 <= m < varint_bytes(v).len(),
    ensures
        !has_varint(varint_bytes(v).take(m)),
{
    lemma_varint_bytes_structure(v);
    lemma_all_continuation_no_varint(varint_bytes(v).take(m));
}

/// Appends the varint encoding of `v` to `out`.
pub fn encode_varint_u64(v: u64, out: &mut Vec<u8>)
    ensures
        final(out)@ == old(out)@ + varint_bytes(v as nat),
{
    let ghost out0 = out@;
    let mut x: u64 = v;
    while x >= 128
        invariant
            out@ + varint_bytes(x as nat) == out0 + varint_bytes(v as nat),
        decreases x,
    {
        let ghost pre = out@;
        out.push((x % 128 + 128) as u8);
        proof {
            assert(varint_bytes(x as nat) == seq![((x as nat % 128) + 128) as u8]
                + varint_bytes(x as nat / 128));
            assert(out@ + varint_bytes((x / 128) as nat) =~= pre + varint_bytes(x as nat));
        }
        x = x / 128;
    }
    let ghost pre = out@;
    out.push(x as u8);
    proof {
        assert(varint_bytes(x as nat) == seq![x as u8]);
        assert(out@ =~= pre + varint_bytes(x as nat));
        assert(out@ =~= out0 + varint_bytes(v as nat));
    }
}

/// Appends the varint encoding of the zigzag image of `v` to `out`.
pub fn encode_varint_i64(v: i64, out: &mut Vec<u8>)
    ensures
        final(out)@ == old(out)@ + varint_bytes(zigzag(v as int)),
{
    let u: u64 = if v >= 0 {
        (v as u64) * 2
    } else {
        (-(v + 1) as u64) * 2 + 1
    };
    proof {
        assert(u as nat == zigzag(v as int));
    }
    encode_varint_u64(u, out);
}

/// Reads one varint from `data` starting at `pos`.  Returns the value and
/// the position just past the varint; `TruncatedInteger` if the input ends
/// before a terminating byte; `CorruptPatch` if the encoded value does not
/// fit in 64 bits.
pub fn decode_varint_u64(data: &Vec<u8>, pos: usize) -> (r: Result<(u64, usize), PatchError>)
    requires
        pos <= data@.len(),
    ensures
        ({
            let s = data@.skip(pos as int);
            match r {
                Ok(p) => {
                    &&& parse_varint(s) == Some((p.0 as nat, p.1 - pos))
                    &&& pos < p.1 <= data@.len()
                },
                Err(e) => {
                    &&& parse_varint(s) is None
                    &&& (e == PatchError::TruncatedInteger <==> !has_varint(s))
                    &&& (e == PatchError::CorruptPatch <==> has_varint(s)
                        && varint_value_of(s) >= u64_bound())
                },
            }
        }),
{
    let ghost s = data@.skip(pos as int);
    let mut i: usize = pos;
    let mut value: u64 = 0;
    let mut pow: u64 = 1;
    let mut pow_ok: bool = true;
    let mut big: bool = false;
    let ghost mut partial: nat = 0;
    proof {
        assert((pos - pos) as nat == 0);
        assert(pow128((pos - pos) as nat) == 1);
        assert(pow128((pos - pos) as nat) * varint_value_of(data@.skip(pos as int))
            == varint_value_of(data@.skip(pos as int))) by (nonlinear_arith)
            requires
                pow128((pos - pos) as nat) == 1,
        ;
    }
    loop
        invariant
            pos <= i <= data@.len(),
            s == data@.skip(pos as int),
            forall|j: int| pos <= j < i ==> data@[j] >= 128,
            has_varint(s) <==> has_varint(data@.skip(i as int)),
            has_varint(s) ==> varint_len_of(s) == (i - pos) + varint_len_of(
                data@.skip(i as int),
            ),
            varint_value_of(s) == partial + pow128((i - pos) as nat) * varint_value_of(
                data@.skip(i as int),
            ),
            !big ==> partial == value && partial < u64_bound(),
            big ==> partial >= u64_bound(),
            pow_ok ==> pow as nat == pow128((i - pos) as nat),
            !pow_ok ==> pow128((i - pos) as nat) >= u64_bound(),
        decreases data@.len() - i,
    {
        let ghost k = (i - pos) as nat;
        let ghost rest = data@.skip(i as int);
        if i == data.len() {
            proof {
                assert(rest =~= Seq::<u8>::empty());
            }
            return Err(PatchError::TruncatedInteger);
        }
        let b = data[i];
        let g = b % 128;
        proof {
            assert(rest.len() > 0);
            assert(rest[0] == b);
        }
        let ghost term_nat = (g as nat) * pow128(k);
        let ghost oldpartial = partial;
        let ghost oldvalue = value;
        proof {
            if g == 0 {
                assert(term_nat == 0) by (nonlinear_arith)
                    requires
                        term_nat == (g as nat) * pow128(k),
                        g == 0,
                ;
            }
        }
        if !big {
            if pow_ok {
                if g > 0 {
                    if pow > u64::MAX / (g as u64) {
                        big = true;
                        proof {
                            vstd::arithmetic::div_mod::lemma_fundamental_div_mod(
                                u64::MAX as int,
                                g as int,
                            );
                            assert(term_nat >= u64_bound()) by (nonlinear_arith)
                                requires
                                    term_nat == (g as nat) * pow128(k),
                                    pow128(k) == pow as nat,
                                    pow as nat > (u64::MAX as nat) / (g as nat),
                                    g > 0,
                                    (u64::MAX as nat) / (g as nat) * (g as nat) + (u64::MAX as nat)
                                        % (g as nat) == u64::MAX as nat,
                                    (u64::MAX as nat) % (g as nat) < g as nat,
                                    u64::MAX as nat == u64_bound() - 1,
                            ;
                        }
                    } else {
                        proof {
                            vstd::arithmetic::div_mod::lemma_fundamental_div_mod(
                                u64::MAX as int,
                                g as int,
                            );
                            assert(term_nat <= u64::MAX as nat) by (nonlinear_arith)
                                requires
                                    term_nat == (g as nat) * pow128(k),
                                    pow128(k) == pow as nat,
                                    pow as nat <= (u64::MAX as nat) / (g as nat),
                                    g > 0,
                                    (u64::MAX as nat) / (g as nat) * (g as nat) + (u64::MAX as nat)
                                        % (g as nat) == u64::MAX as nat,
                            ;
                        }
                        let term = (g as u64) * pow;
                        proof {
                            assert(term as nat == term_nat);
                        }
                        if value > u64::MAX - term {
                            big = true;
                        } else {
                            value = value + term;
                        }
                    }
                }
            } else {
                if g > 0 {
                    proof {
                        assert(term_nat >= u64_bound()) by (nonlinear_arith)
                            requires
                                term_nat == (g as nat) * pow128(k),
                                g >= 1,
                                pow128(k) >= u64_bound(),
                        ;
                    }
                    big = true;
                }
            }
        }
        proof {
            partial = oldpartial + term_nat;
        }
        if b < 128 {
            proof {
                assert(varint_value_of(rest) == b as nat);
                assert(g == b);
                assert(varint_value_of(s) == oldpartial + term_nat) by (nonlinear_arith)
                    requires
                        varint_value_of(s) == oldpartial + pow128(k) * varint_value_of(rest),
                        varint_value_of(rest) == g as nat,
                        term_nat == (g as nat) * pow128(k),
                ;
                assert(varint_value_of(s) == partial);
                assert(varint_len_of(s) == (i - pos) + 1);
            }
            if big {
                return Err(PatchError::CorruptPatch);
            }
            return Ok((value, i + 1));
        }
        proof {
            assert(rest.skip(1) =~= data@.skip(i + 1));
            let vn = varint_value_of(data@.skip(i + 1));
            assert(varint_value_of(rest) == (b - 128) as nat + 128 * vn);
            assert(g as nat == (b - 128) as nat);
            assert(pow128(k + 1) == 128 * pow128(k));
            assert(partial + pow128(k + 1) * vn == varint_value_of(s)) by (nonlinear_arith)
                requires
                    partial == oldpartial + (g as nat) * pow128(k),
                    pow128(k + 1) == 128 * pow128(k),
                    varint_value_of(s) == oldpartial + pow128(k) * ((g as nat) + 128 * vn),
            ;
        }
        if pow_ok {
            if pow <= u64::MAX / 128 {
                pow = pow * 128;
            } else {
                pow_ok = false;
                proof {
                    assert(128 * pow128(k) >= u64_bound()) by (nonlinear_arith)
                        requires
                            pow128(k) == pow as nat,
                            pow as nat > (u64::MAX as nat) / 128,
                            (u64::MAX as nat) / 128 == 0x1ffffffffffffff,
                            u64::MAX as nat == u64_bound() - 1,
                    ;
                }
            }
        } else {
            proof {
                assert(pow128(k + 1) >= pow128(k)) by (nonlinear_arith)
                    requires
                        pow128(k + 1) == 128 * pow128(k),
                        pow128(k) >= 0,
                ;
            }
        }
        i = i + 1;
    }
}

/// Reads one zigzag-encoded signed varint from `data` starting at `pos`.
pub fn decode_varint_i64(data: &Vec<u8>, pos: usize) -> (r: Result<(i64, usize), PatchError>)
    requires
        pos <= data@.len(),
    ensures
        ({
            let s = data@.skip(pos as int);
            match r {
                Ok(p) => {
                    &&& parse_varint(s) matches Some(q) && q.0 == zigzag(p.0 as int) && q.1 == p.1
                        - pos
                    &&& pos < p.1 <= data@.len()
                },
                Err(e) => {
                    &&& parse_varint(s) is None
                    &&& (e == PatchError::TruncatedInteger <==> !has_varint(s))
                    &&& (e == PatchError::CorruptPatch <==> has_varint(s)
                        && varint_value_of(s) >= u64_bound())
                },
            }
        }),
{
    match decode_varint_u64(data, pos) {
        Ok((u, end)) => {
            let v: i64 = if u % 2 == 0 {
                (u / 2) as i64
            } else {
                -((u / 2) as i64) - 1
            };
            proof {
                assert(u as nat == zigzag(v as int));
            }
            Ok((v, end))
        },
        Err(e) => Err(e),
    }
}

} // verus!
