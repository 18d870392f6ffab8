//! The format's variable-length integers: one to nine bytes, most significant
//! group first. Each of the first eight bytes gives its low seven bits and
//! asks for another byte when its high bit is set; a ninth byte gives all
//! eight of its bits.

use vstd::arithmetic::power2::{
    lemma2_to64, lemma2_to64_rest, lemma_pow2_adds, lemma_pow2_strictly_increases, pow2,
};
use vstd::arithmetic::div_mod::lemma_fundamental_div_mod_converse;
use vstd::prelude::*;

verus! {

/// Whether byte `i` of `s` asks for a further byte; a byte past the end of
/// `s` counts as asking, so that a cut-off varint is never complete.
pub open spec fn varint_continues(s: Seq<u8>, i: int) -> bool {
    i >= s.len() || s[i] >= 128
}

/// The length of the varint at the start of `s`, given that none of its
/// first `i` bytes ends it.
pub open spec fn varint_len_from(s: Seq<u8>, i: nat) -> nat
    decreases 8 - i,
{
    if i >= 8 {
        9
    } else if !varint_continues(s, i as int) {
        i + 1
    } else {
        varint_len_from(s, i + 1)
    }
}

/// The number of bytes the varint at the start of `s` occupies.
pub open spec fn varint_len(s: Seq<u8>) -> nat {
    varint_len_from(s, 0)
}

/// Whether `s` starts with a complete varint.
pub open spec fn is_varint(s: Seq<u8>) -> bool {
    varint_len(s) <= s.len()
}

/// The value held by the first `k` bytes of a varint (`k <= 9`).
pub open spec fn varint_prefix_value(s: Seq<u8>, k: nat) -> nat
    decreases k,
{
    if k == 0 {
        0
    } else if k >= 9 {
        varint_prefix_value(s, 8) * 256 + s[8] as nat
    } else {
        varint_prefix_value(s, (k - 1) as nat) * 128 + (s[k - 1] % 128) as nat
    }
}

/// The value of the varint at the start of `s`.
pub open spec fn varint_value(s: Seq<u8>) -> nat {
    varint_prefix_value(s, varint_len(s))
}

proof fn lemma_varint_len_from_bounds(s: Seq<u8>, i: nat)
    requires
        i <= 8,
    ensures
        i < varint_len_from(s, i) <= 9,
    decreases 8 - i,
{
    if i < 8 && varint_continues(s, i as int) {
        lemma_varint_len_from_bounds(s, i + 1);
    }
}

/// `m` bytes that all ask for a further byte, holding the low `7 * m` bits
/// of `v`, most significant group first.
pub open spec fn varint_continued_bytes(v: nat, m: nat) -> Seq<u8>
    decreases m,
{
    if m == 0 {
        Seq::empty()
    } else {
        varint_continued_bytes(v / 128, (m - 1) as nat).push((128 + v % 128) as u8)
    }
}

/// The fewest bytes that a varint of value `v` can take, trying `k` bytes
/// and up.
pub open spec fn varint_size_from(v: nat, k: nat) -> nat
    decreases 9 - k,
{
    if k >= 9 {
        9
    } else if v < pow2(7 * k) {
        k
    } else {
        varint_size_from(v, k + 1)
    }
}

/// The fewest bytes that a varint of value `v` can take.
pub open spec fn varint_size(v: nat) -> nat {
    varint_size_from(v, 1)
}

/// The encoding of `v` as a varint of the fewest bytes.
pub open spec fn varint_encode(v: nat) -> Seq<u8> {
    let k = varint_size(v);
    if k >= 9 {
        varint_continued_bytes(v / 256, 8).push((v % 256) as u8)
    } else {
        varint_continued_bytes(v / 128, (k - 1) as nat).push((v % 128) as u8)
    }
}

proof fn lemma_varint_len_shape(s: Seq<u8>, i: nat)
    requires
        i <= 8,
    ensures
        forall|j: int|
            i <= j < varint_len_from(s, i) - 1 && j < 8 ==> #[trigger] varint_continues(s, j),
        varint_len_from(s, i) <= 8 ==> !varint_continues(s, varint_len_from(s, i) - 1),
    decreases 8 - i,
{
    if i < 8 && varint_continues(s, i as int) {
        lemma_varint_len_shape(s, i + 1);
    }
}

proof fn lemma_continued_prefix(s: Seq<u8>, j: nat)
    requires
        j <= 8,
        j <= s.len(),
        forall|m: int| 0 <= m < j ==> s[m] >= 128,
    ensures
        varint_continued_bytes(varint_prefix_value(s, j), j) == s.take(j as int),
    decreases j,
{
    if j > 0 {
        let prev = varint_prefix_value(s, (j - 1) as nat);
        let low = (s[j - 1] % 128) as int;
        lemma_fundamental_div_mod_converse(
            varint_prefix_value(s, j) as int,
            128,
            prev as int,
            low,
        );
        lemma_continued_prefix(s, (j - 1) as nat);
        assert(s.take(j as int) =~= s.take(j - 1).push(s[j - 1]));
    }
}

/// Decoding then re-encoding gives back the same bytes: a varint written in
/// the fewest bytes its value needs is exactly the encoding of that value,
/// so the value and the byte count both come back unchanged.
pub proof fn lemma_varint_round_trip(s: Seq<u8>)
    requires
        is_varint(s),
        varint_size(varint_value(s)) == varint_len(s),
    ensures
        varint_encode(varint_value(s)) == s.take(varint_len(s) as int),
        varint_encode(varint_value(s)).len() == varint_len(s),
{
    let k = varint_len(s);
    let v = varint_value(s);
    lemma_varint_len_from_bounds(s, 0);
    lemma_varint_len_shape(s, 0);
    if k >= 9 {
        assert forall|m: int| 0 <= m < 8 implies s[m] >= 128 by {
            assert(varint_continues(s, m));
        }
        lemma_continued_prefix(s, 8);
        lemma_fundamental_div_mod_converse(
            v as int,
            256,
            varint_prefix_value(s, 8) as int,
            s[8] as int,
        );
        assert(s.take(9) =~= s.take(8).push(s[8]));
    } else {
        assert forall|m: int| 0 <= m < k - 1 implies s[m] >= 128 by {
            assert(varint_continues(s, m));
        }
        assert(!varint_continues(s, k - 1));
        lemma_continued_prefix(s, (k - 1) as nat);
        lemma_fundamental_div_mod_converse(
            v as int,
            128,
            varint_prefix_value(s, (k - 1) as nat) as int,
            (s[k - 1] % 128) as int,
        );
        assert(s.take(k as int) =~= s.take(k - 1).push(s[k - 1]));
    }
}

/// Decodes the varint at the start of `bytes`: its value and how many bytes
/// it took. `None` when `bytes` ends before the varint does.
pub fn read_varint(bytes: &[u8]) -> (r: Option<(u64, usize)>)
    ensures
        r.is_some() <==> is_varint(bytes@),
        r matches Some((v, n)) ==> v == varint_value(bytes@) && n == varint_len(bytes@),
        r matches Some((v, n)) ==> 1 <= n <= 9,
{
    let ghost s = bytes@;
    let mut acc: u64 = 0;
    let mut i: usize = 0;
    proof {
        lemma2_to64();
        lemma2_to64_rest();
    }
    while i < 8
        invariant
            i <= 8,
            s == bytes@,
            acc == varint_prefix_value(s, i as nat),
            acc < pow2(7 * i as nat),
            varint_len(s) == varint_len_from(s, i as nat),
            pow2(7) == 128,
            pow2(49) == 0x2000000000000,
            pow2(56) == 0x100000000000000,
        decreases 8 - i,
    {
        if i >= bytes.len() {
            proof {
                lemma_varint_len_from_bounds(s, i as nat);
            }
            return None;
        }
        let b = bytes[i];
        proof {
            let p = pow2(7 * i as nat);
            lemma_pow2_adds(7 * i as nat, 7);
            assert(7 * (i + 1) as nat == 7 * i as nat + 7) by (nonlinear_arith);
            assert(p <= pow2(49)) by {
                if i < 7 {
                    lemma_pow2_strictly_increases(7 * i as nat, 49);
                }
            }
            assert(acc * 128 + b % 128 < p * 128) by (nonlinear_arith)
                requires
                    acc < p,
            ;
        }
        acc = acc * 128 + (b % 128) as u64;
        i = i + 1;
        if b < 128 {
            return Some((acc, i));
        }
    }
    if bytes.len() <= 8 {
        return None;
    }
    assert(acc * 256 + bytes[8] < 0x10000000000000000) by (nonlinear_arith)
        requires
            acc < 0x100000000000000,
    ;
    acc = acc * 256 + bytes[8] as u64;
    Some((acc, 9))
}

} // verus!
