//! Little-endian base-128 variable-length integer decoding and encoding.
//!
//! Each byte contributes seven low-order payload bits; a set high bit means
//! that more bytes follow. The size stream of a container stores frame sizes
//! in this encoding. A value that does not fit in 32 bits is treated as a
//! malformed-input error.

use vstd::prelude::*;
use vstd::arithmetic::power2::{pow2, lemma_pow2_adds, lemma_pow2_strictly_increases, lemma2_to64, lemma2_to64_rest};
use vstd::arithmetic::div_mod::{lemma_fundamental_div_mod, lemma_div_decreases};

use crate::DecodeError;

verus! {

/// The mathematical meaning of the base-128 encoding found in `s` at byte
/// offset `off`: the decoded value together with the number of bytes the
/// encoding occupies, or `None` when the buffer ends before a byte without
/// the continuation bit.
pub open spec fn vu_decode(s: Seq<u8>, off: int) -> Option<(nat, int)>
    decreases s.len() - off
{
    if off < 0 || off >= s.len() {
        None
    } else if s[off] < 128 {
        Some((s[off] as nat, 1))
    } else {
        match vu_decode(s, off + 1) {
            Some((v, n)) => Some(((s[off] - 128) as nat + 128 * v, n + 1)),
            None => None,
        }
    }
}

/// The canonical base-128 encoding of `v`.
pub open spec fn vu_encode(v: nat) -> Seq<u8>
    decreases v
{
    if v < 128 {
        seq![v as u8]
    } else {
        seq![(v % 128 + 128) as u8] + vu_encode((v / 128) as nat)
    }
}

/// Reads one base-128 integer from `bytes` at byte offset `off`.
///
/// Succeeds exactly when a terminated encoding begins at `off` and its value
/// fits in 32 bits; a buffer that ends mid-encoding or a value past 32 bits
/// is a malformed container.
pub fn read_varuint(bytes: &[u8], off: usize) -> (r: Result<(u32, usize), DecodeError>)
    requires
        off <= bytes@.len(),
    ensures
        match r {
            Ok((v, n)) => vu_decode(bytes@, off as int) == Some((v as nat, n as int)) && n >= 1 && off + n <= bytes@.len(),
            Err(e) => {
                &&& e == DecodeError::MalformedContainer
                &&& match vu_decode(bytes@, off as int) {
                    Some((v, n)) => v >= 0x100000000,
                    None => true,
                }
            },
        },
{
    let ghost s = bytes@;
    let mut i: usize = off;
    let mut k: usize = 0;
    let mut m: u32 = 1;
    let mut value: u32 = 0;
    proof {
        lemma2_to64();
        lemma2_to64_rest();
    }
    loop
        invariant
            s == bytes@,
            off <= i <= s.len(),
            i - off < 5 ==> k == i - off,
            i - off >= 5 ==> k == 5,
            k <= 4 ==> m == pow2((7 * k) as nat),
            k < 5 ==> (value as nat) < pow2((7 * k) as nat),
            k == 5 ==> (value as nat) < 0x100000000,
            match vu_decode(s, i as int) {
                Some((v2, n2)) => vu_decode(s, off as int) == Some((
                    value as nat + v2 * pow2((7 * (i - off)) as nat),
                    n2 + (i - off),
                )),
                None => vu_decode(s, off as int) is None,
            },
        decreases s.len() - i,
    {
        proof {
            lemma2_to64();
            lemma2_to64_rest();
        }
        if i >= bytes.len() {
            return Err(DecodeError::MalformedContainer);
        }
        let b = bytes[i];
        let ghost pw = pow2((7 * (i - off)) as nat);
        proof {
            if i - off >= 5 {
                if 7 * (i - off) > 35 {
                    lemma_pow2_strictly_increases(35, (7 * (i - off)) as nat);
                }
                assert(pw >= pow2(35));
            }
        }
        if b < 128 {
            // terminal byte: the suffix decodes to (b, 1)
            assert(vu_decode(s, i as int) == Some((b as nat, 1int)));
            if k == 5 {
                if b == 0 {
                    assert(value as nat + (b as nat) * pw == value as nat) by (nonlinear_arith)
                        requires b == 0;
                    return Ok((value, i + 1 - off));
                } else {
                    assert((b as nat) * pw >= pow2(35)) by (nonlinear_arith)
                        requires b >= 1, pw >= pow2(35);
                    return Err(DecodeError::MalformedContainer);
                }
            } else if k == 4 {
                if b < 16 {
                    assert((b as nat) * pw == (b as u32 * m) as nat) by (nonlinear_arith)
                        requires
                            b < 16,
                            m == pw,
                            pw == pow2(28),
                            pow2(28) == 0x10000000,
                    ;
                    return Ok((value + b as u32 * m, i + 1 - off));
                } else {
                    assert((b as nat) * pw >= 0x100000000) by (nonlinear_arith)
                        requires b >= 16, pw == pow2(28), pow2(28) == 0x10000000;
                    return Err(DecodeError::MalformedContainer);
                }
            } else {
                assert((b as nat) * pw == (b as u32 * m) as nat) by (nonlinear_arith)
                    requires
                        b < 128,
                        m == pw,
                        pw <= pow2(21),
                        pow2(21) == 0x200000;
                assert(((b as u32 * m) as nat) + (value as nat) < 0x100000000) by (nonlinear_arith)
                    requires
                        b < 128,
                        m == pw,
                        pw <= pow2(21),
                        value < pow2(28),
                        pow2(21) == 0x200000,
                        pow2(28) == 0x10000000;
                return Ok((value + b as u32 * m, i + 1 - off));
            }
        } else {
            // continuation byte with payload p
            let p = b % 128;
            assert(p == b - 128);
            proof {
                lemma_pow2_adds((7 * (i - off)) as nat, 7);
                // relate the decode at i to the decode at i + 1
                match vu_decode(s, i as int + 1) {
                    Some((v3, n3)) => {
                        assert(vu_decode(s, i as int) == Some(((b - 128) as nat + 128 * v3, n3 + 1)));
                        assert(((b - 128) as nat + 128 * v3) * pw == (b - 128) as nat * pw + v3 * (pw * 128)) by (nonlinear_arith);
                    },
                    None => {
                        assert(vu_decode(s, i as int) is None);
                    },
                }
            }
            if k == 5 {
                if p != 0 {
                    proof {
                        if vu_decode(s, i as int + 1) is Some {
                            let (v3, n3) = vu_decode(s, i as int + 1)->Some_0;
                            assert(((b - 128) as nat + 128 * v3) * pw >= pow2(35)) by (nonlinear_arith)
                                requires b >= 129, pw >= pow2(35);
                        }
                    }
                    return Err(DecodeError::MalformedContainer);
                }
                assert(value as nat + ((b - 128) as nat) * pw == value as nat) by (nonlinear_arith)
                    requires b == 128;
            } else if k == 4 {
                if p >= 16 {
                    proof {
                        if vu_decode(s, i as int + 1) is Some {
                            let (v3, n3) = vu_decode(s, i as int + 1)->Some_0;
                            assert(((b - 128) as nat + 128 * v3) * pw >= 0x100000000) by (nonlinear_arith)
                                requires b - 128 >= 16, pw == pow2(28), pow2(28) == 0x10000000;
                        }
                    }
                    return Err(DecodeError::MalformedContainer);
                }
                assert((p as u32 * m) as nat == (b - 128) as nat * pw) by (nonlinear_arith)
                    requires
                        p == b - 128,
                        p < 16,
                        m == pw,
                        pw == pow2(28),
                        pow2(28) == 0x10000000;
                assert((value as nat) + ((p as u32 * m) as nat) < 0x100000000) by (nonlinear_arith)
                    requires
                        p < 16,
                        m == pw,
                        pw == pow2(28),
                        value < pow2(28),
                        pow2(28) == 0x10000000;
                value = value + p as u32 * m;
            } else {
                proof {
                    if 7 * (i - off) + 7 < 28 {
                        lemma_pow2_strictly_increases((7 * (i - off) + 7) as nat, 28);
                    }
                }
                assert((p as u32 * m) as nat == (b - 128) as nat * pw) by (nonlinear_arith)
                    requires
                        p == b - 128,
                        p < 128,
                        m == pw,
                        pw <= pow2(21),
                        pow2(21) == 0x200000;
                assert((value as nat) + ((p as u32 * m) as nat) < pow2((7 * (i - off) + 7) as nat)) by (nonlinear_arith)
                    requires
                        p == b - 128,
                        p < 128,
                        m == pw,
                        value < pw,
                        pw <= pow2(21),
                        pw * 128 == pow2((7 * (i - off) + 7) as nat),
                        pow2(21) == 0x200000;
                assert(m * 128 == pow2((7 * (i - off) + 7) as nat)) by (nonlinear_arith)
                    requires
                        m == pw,
                        pw * 128 == pow2((7 * (i - off) + 7) as nat);
                assert(m * 128 <= 0x10000000) by (nonlinear_arith)
                    requires
                        m == pw,
                        pw * 128 == pow2((7 * (i - off) + 7) as nat),
                        pow2((7 * (i - off) + 7) as nat) <= pow2(28),
                        pow2(28) == 0x10000000;
                value = value + p as u32 * m;
                m = m * 128;
            }
            i = i + 1;
            k = if k < 5 { k + 1 } else { k };
        }
    }
}

/// Writes the base-128 encoding of `v`.
pub fn encode_varuint(v: u32) -> (r: Vec<u8>)
    ensures
        r@ == vu_encode(v as nat),
{
    let mut out: Vec<u8> = Vec::new();
    let mut x = v;
    while x >= 128
        invariant
            vu_encode(v as nat) == out@ + vu_encode(x as nat),
        decreases x,
    {
        proof {
            lemma_div_decreases(x as int, 128);
            assert(vu_encode(x as nat) == seq![(x as nat % 128 + 128) as u8] + vu_encode((x as nat / 128) as nat));
            assert(out@ + (seq![(x as nat % 128 + 128) as u8] + vu_encode((x as nat / 128) as nat))
                =~= (out@ + seq![(x as nat % 128 + 128) as u8]) + vu_encode((x as nat / 128) as nat));
        }
        out.push((x % 128 + 128) as u8);
        x = x / 128;
    }
    proof {
        assert(vu_encode(x as nat) == seq![x as u8]);
        assert(out@ + seq![x as u8] =~= vu_encode(v as nat));
    }
    out.push(x as u8);
    out
}

/// Decoding is unchanged by any prefix placed before the bytes decoded.
proof fn lemma_vu_decode_concat(s: Seq<u8>, t: Seq<u8>, off: int)
    requires
        0 <= off,
    ensures
        vu_decode(s + t, s.len() + off) == vu_decode(t, off),
    decreases (if off < t.len() { t.len() - off } else { 0 }),
{
    if off >= t.len() {
        assert(vu_decode(s + t, s.len() + off) is None);
    } else {
        assert((s + t)[s.len() + off] == t[off]);
        if t[off] >= 128 {
            lemma_vu_decode_concat(s, t, off + 1);
        }
    }
}

/// Law: decoding the encoding of any 32-bit value returns that value and
/// consumes exactly the encoding's length.
pub proof fn lemma_varuint_round_trip(v: u32)
    ensures
        vu_decode(vu_encode(v as nat), 0) == Some((v as nat, vu_encode(v as nat).len() as int)),
{
    lemma_vu_round_trip_nat(v as nat);
}

proof fn lemma_vu_round_trip_nat(v: nat)
    ensures
        vu_decode(vu_encode(v), 0) == Some((v, vu_encode(v).len() as int)),
    decreases v,
{
    if v < 128 {
        assert(vu_encode(v) == seq![v as u8]);
        assert(vu_decode(vu_encode(v), 0) == Some((v, 1int)));
    } else {
        lemma_div_decreases(v as int, 128);
        lemma_vu_round_trip_nat((v / 128) as nat);
        let b = (v % 128 + 128) as u8;
        let rest = vu_encode((v / 128) as nat);
        assert(vu_encode(v) == seq![b] + rest);
        lemma_vu_decode_concat(seq![b], rest, 0);
        assert((seq![b] + rest)[0] == b);
        assert(b >= 128);
        lemma_fundamental_div_mod(v as int, 128);
        assert((b - 128) as nat + 128 * (v / 128) == v);
        assert((seq![b] + rest).len() == vu_encode(v).len());
    }
}

} // verus!
