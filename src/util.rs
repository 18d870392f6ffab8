//! Big-endian integer helpers.

use vstd::arithmetic::power2::{
    lemma2_to64, lemma2_to64_rest, lemma_pow2_adds, lemma_pow2_strictly_increases, pow2,
};
use vstd::prelude::*;

verus! {

/// The unsigned integer that `s` holds, most significant byte first.
pub open spec fn be_uint(s: Seq<u8>) -> nat
    decreases s.len(),
{
    if s.len() == 0 {
        0
    } else {
        be_uint(s.drop_last()) * 256 + s.last() as nat
    }
}

/// Reads a big-endian `u16`.
pub fn as_u16_be(array: &[u8; 2]) -> (r: u16)
    ensures
        r as nat == be_uint(array@),
        r == array[0] as nat * 256 + array[1] as nat,
{
    proof {
        reveal_with_fuel(be_uint, 3);
        assert(array@.drop_last().drop_last() =~= Seq::<u8>::empty());
    }
    (array[0] as u16) * 256 + (array[1] as u16)
}

/// Reads a big-endian `u32`.
pub fn as_u32_be(array: &[u8; 4]) -> (r: u32)
    ensures
        r as nat == be_uint(array@),
        r == array[0] as nat * 16777216 + array[1] as nat * 65536 + array[2] as nat * 256
            + array[3] as nat,
{
    proof {
        reveal_with_fuel(be_uint, 5);
        assert(array@.drop_last().drop_last().drop_last().drop_last() =~= Seq::<u8>::empty());
    }
    (array[0] as u32) * 16777216 + (array[1] as u32) * 65536 + (array[2] as u32) * 256
        + (array[3] as u32)
}


/// The two's-complement integer that `s` holds, most significant byte
/// first: the first byte carries the sign, each later byte is a further
/// base-256 digit.
pub open spec fn be_int(s: Seq<u8>) -> int
    decreases s.len(),
{
    if s.len() == 0 {
        0
    } else if s.len() == 1 {
        if s[0] >= 128 {
            s[0] - 256
        } else {
            s[0] as int
        }
    } else {
        be_int(s.drop_last()) * 256 + s.last() as int
    }
}

/// Reads a big-endian two's-complement integer of one to eight bytes,
/// extending its sign to 64 bits.
pub fn as_i64_be(bytes: &[u8]) -> (r: i64)
    requires
        1 <= bytes@.len() <= 8,
    ensures
        r as int == be_int(bytes@),
{
    let ghost s = bytes@;
    let first = bytes[0];
    let mut acc: i64 = if first >= 128 {
        first as i64 - 256
    } else {
        first as i64
    };
    let mut i: usize = 1;
    proof {
        lemma2_to64();
        lemma2_to64_rest();
        assert(s.take(1).drop_last() =~= Seq::<u8>::empty());
    }
    while i < bytes.len()
        invariant
            1 <= i <= bytes@.len() <= 8,
            s == bytes@,
            acc as int == be_int(s.take(i as int)),
            -pow2((8 * i - 1) as nat) <= acc < pow2((8 * i - 1) as nat),
            pow2(8) == 256,
            pow2(55) == 0x80000000000000,
        decreases bytes@.len() - i,
    {
        let b = bytes[i];
        proof {
            let e = (8 * i - 1) as nat;
            let p = pow2(e);
            lemma_pow2_adds(e, 8);
            assert((8 * (i + 1) - 1) as nat == e + 8);
            assert(p <= pow2(55)) by {
                if e < 55 {
                    lemma_pow2_strictly_increases(e, 55);
                }
            }
            assert(-p * 256 <= acc * 256 + b < p * 256) by (nonlinear_arith)
                requires
                    -p <= acc < p,
                    0 <= b < 256,
            ;
            assert(s.take(i + 1).drop_last() =~= s.take(i as int));
        }
        acc = acc * 256 + b as i64;
        i = i + 1;
    }
    assert(s.take(i as int) =~= s);
    acc
}

} // verus!
