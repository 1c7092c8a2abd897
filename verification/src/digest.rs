//! 256-bit hash digests and the two-variant digest union.
//!
//! A digest is thirty-two bytes read as one big-endian unsigned integer.
//! Commitments may arrive either as a high-level, field-friendly hash
//! (already a field element) or as a low-level raw hash (bytes); the
//! union keeps the variant tag, and both render to the same canonical
//! scalar form downstream.
use vstd::prelude::*;

verus! {

use crate::hex::hex_digits;
use crate::hex::hex_numeral;
use crate::hex::hex_seq_val;
use crate::hex::lemma_hex_round_trip;
use crate::scalar::Felt;
use crate::scalar::prime;
use crate::scalar::Word256;
use crate::scalar::word_val;
use vstd::arithmetic::div_mod::lemma_fundamental_div_mod_converse;
use vstd::arithmetic::mul::lemma_mul_is_associative;
use vstd::arithmetic::mul::lemma_mul_is_distributive_add;
use vstd::arithmetic::power2::lemma2_to64;
use vstd::arithmetic::power2::lemma2_to64_rest;
use vstd::arithmetic::power2::lemma_pow2_adds;
use vstd::arithmetic::power2::pow2;

/// A 256-bit hash digest held as its big-endian bytes.
#[derive(Clone)]
pub struct Digest {
    pub bytes: Vec<u8>,
}

/// A digest holds exactly thirty-two bytes.
pub open spec fn digest_wf(d: Digest) -> bool {
    d.bytes@.len() == 32
}

/// The big-endian unsigned integer a byte run stands for.
pub open spec fn be_val(s: Seq<u8>) -> nat
    decreases s.len(),
{
    if s.len() == 0 {
        0
    } else {
        (be_val(s.drop_last()) * 256 + s.last()) as nat
    }
}

/// A run of `n` bytes stays below 2^(8n).
pub proof fn lemma_be_val_bound(s: Seq<u8>)
    ensures
        be_val(s) < pow2(8 * s.len()),
    decreases s.len(),
{
    if s.len() == 0 {
        lemma2_to64();
    } else {
        lemma_be_val_bound(s.drop_last());
        lemma_pow2_adds(8 * (s.len() - 1) as nat, 8);
        lemma2_to64();
    }
}

/// Reading two byte runs in sequence reads the concatenated integer.
pub proof fn lemma_be_val_concat(s: Seq<u8>, t: Seq<u8>)
    ensures
        be_val(s + t) == be_val(s) * pow2(8 * t.len()) + be_val(t),
    decreases t.len(),
{
    if t.len() == 0 {
        assert(s + t =~= s);
        lemma2_to64();
        assert(pow2(0) == 1);
        assert(be_val(s) * 1 == be_val(s));
    } else {
        lemma_be_val_concat(s, t.drop_last());
        assert((s + t).drop_last() =~= s + t.drop_last());
        assert((s + t).last() == t.last());
        lemma_pow2_adds(8 * (t.len() - 1) as nat, 8);
        lemma2_to64();
        let p1 = pow2(8 * (t.len() - 1) as nat);
        let bs = be_val(s);
        let bt1 = be_val(t.drop_last());
        assert(be_val(s + t) == be_val(s + t.drop_last()) * 256 + t.last());
        assert(be_val(s + t.drop_last()) == bs * p1 + bt1);
        assert((bs * p1 + bt1) * 256 == bs * (p1 * 256) + bt1 * 256) by {
            lemma_mul_is_distributive_add(256, (bs * p1) as int, bt1 as int);
            lemma_mul_is_associative(bs as int, p1 as int, 256);
        }
        assert(p1 * 256 == pow2(8 * t.len()));
        assert(be_val(t) == bt1 * 256 + t.last());
    }
}

/// Two equally long byte runs with the same integer are the same bytes:
/// the big-endian reading loses nothing.
pub proof fn lemma_be_val_injective(s: Seq<u8>, t: Seq<u8>)
    requires
        s.len() == t.len(),
        be_val(s) == be_val(t),
    ensures
        s =~= t,
    decreases s.len(),
{
    if s.len() > 0 {
        lemma_fundamental_div_mod_converse(
            be_val(s) as int,
            256,
            be_val(s.drop_last()) as int,
            s.last() as int,
        );
        lemma_fundamental_div_mod_converse(
            be_val(t) as int,
            256,
            be_val(t.drop_last()) as int,
            t.last() as int,
        );
        lemma_be_val_injective(s.drop_last(), t.drop_last());
        assert forall|i: int| 0 <= i < s.len() implies s[i] == t[i] by {
            if i < s.len() - 1 {
                assert(s.drop_last()[i] == t.drop_last()[i]);
            }
        }
    }
}

/// One 64-bit limb read big-endian from eight bytes.
fn be_limb(bytes: &Vec<u8>, start: usize) -> (r: u64)
    requires
        start + 8 <= bytes@.len(),
    ensures
        r == be_val(bytes@.subrange(start as int, start as int + 8)),
{
    let n = bytes.len();
    let mut acc: u64 = 0;
    let mut i: usize = 0;
    while i < 8
        invariant
            i <= 8,
            n == bytes@.len(),
            start + 8 <= n,
            acc == be_val(bytes@.subrange(start as int, start as int + i)),
        decreases 8 - i,
    {
        proof {
            lemma_be_val_bound(bytes@.subrange(start as int, start as int + i));
            lemma2_to64();
            lemma2_to64_rest();
            assert(pow2(8 * i as nat) <= pow2(56)) by {
                if i < 7 {
                    vstd::arithmetic::power2::lemma_pow2_strictly_increases(8 * i as nat, 56);
                }
            }
            assert(bytes@.subrange(start as int, start as int + i + 1).drop_last() =~= bytes@
                .subrange(start as int, start as int + i));
        }
        acc = acc * 256 + (bytes[start + i] as u64);
        i = i + 1;
    }
    acc
}

/// The word a digest's bytes stand for.
pub fn digest_to_word(d: &Digest) -> (r: Word256)
    requires
        digest_wf(*d),
    ensures
        word_val(r) == be_val(d.bytes@),
{
    let l3 = be_limb(&d.bytes, 0);
    let l2 = be_limb(&d.bytes, 8);
    let l1 = be_limb(&d.bytes, 16);
    let l0 = be_limb(&d.bytes, 24);
    let r = Word256 { d0: l0, d1: l1, d2: l2, d3: l3 };
    proof {
        let b = d.bytes@;
        lemma_be_val_concat(b.subrange(0, 8), b.subrange(8, 16));
        assert(b.subrange(0, 8) + b.subrange(8, 16) =~= b.subrange(0, 16));
        lemma_be_val_concat(b.subrange(0, 16), b.subrange(16, 24));
        assert(b.subrange(0, 16) + b.subrange(16, 24) =~= b.subrange(0, 24));
        lemma_be_val_concat(b.subrange(0, 24), b.subrange(24, 32));
        assert(b.subrange(0, 24) + b.subrange(24, 32) =~= b);
        lemma2_to64();
        lemma2_to64_rest();
        assert(pow2(64) == 0x10000000000000000);
        lemma_distribute_limbs(
            be_val(b.subrange(0, 8)),
            be_val(b.subrange(8, 16)),
            be_val(b.subrange(16, 24)),
            be_val(b.subrange(24, 32)),
        );
    }
    r
}

/// Spelling out the limb recombination keeps the main proof linear.
proof fn lemma_distribute_limbs(h3: nat, h2: nat, h1: nat, h0: nat)
    ensures
        ((h3 * 0x10000000000000000int + h2) * 0x10000000000000000int + h1) * 0x10000000000000000int + h0
            == h0 + h1 * 0x10000000000000000int + h2 * 0x100000000000000000000000000000000int + h3
            * 0x1000000000000000000000000000000000000000000000000int,
{
    lemma_mul_is_distributive_add(
        0x10000000000000000int,
        (h3 * 0x10000000000000000int + h2) as int,
        h1 as int,
    );
    lemma_mul_is_distributive_add(0x10000000000000000int, (h3 * 0x10000000000000000int) as int, h2 as int);
    lemma_mul_is_associative(h3 as int, 0x10000000000000000int, 0x10000000000000000int);
    lemma_mul_is_distributive_add(
        0x10000000000000000int,
        (h3 * 0x100000000000000000000000000000000int + h2 * 0x10000000000000000int) as int,
        h1 as int,
    );
    lemma_mul_is_distributive_add(
        0x10000000000000000int,
        (h3 * 0x100000000000000000000000000000000int) as int,
        (h2 * 0x10000000000000000int) as int,
    );
    lemma_mul_is_associative(h3 as int, 0x100000000000000000000000000000000int, 0x10000000000000000int);
    lemma_mul_is_associative(h2 as int, 0x10000000000000000int, 0x10000000000000000int);
}


/// Scalar canonicalization loses nothing below the modulus: the digits
/// of a digest's rendered scalar decode to its big-endian integer, and
/// that integer names its thirty-two bytes uniquely.
pub proof fn lemma_digest_scalar_round_trip(d: Digest)
    requires
        digest_wf(d),
        be_val(d.bytes@) < prime(),
    ensures
        hex_seq_val(hex_numeral(be_val(d.bytes@) % prime()).skip(2)) == be_val(d.bytes@),
        forall|d2: Digest|
            digest_wf(d2) && #[trigger] be_val(d2.bytes@) == be_val(d.bytes@) ==> d2.bytes@
                =~= d.bytes@,
{
    let v = be_val(d.bytes@);
    vstd::arithmetic::div_mod::lemma_small_mod(v, prime());
    assert(hex_numeral(v).skip(2) =~= hex_digits(v));
    lemma_hex_round_trip(v);
    assert forall|d2: Digest|
        digest_wf(d2) && #[trigger] be_val(d2.bytes@) == be_val(d.bytes@) implies d2.bytes@
        =~= d.bytes@ by {
        lemma_be_val_injective(d2.bytes@, d.bytes@);
    }
}

/// A commitment digest: either the high-level field-friendly hash or the
/// low-level raw hash.  The encoder dispatches on the tag alone, and both
/// variants end up as the same canonical scalar form.
pub enum MixedDigest {
    HighLevel(Felt),
    LowLevel(Digest),
}

/// Well-formed union values carry a canonical element or a full digest.
pub open spec fn mixed_wf(m: MixedDigest) -> bool {
    match m {
        MixedDigest::HighLevel(f) => f.valid(),
        MixedDigest::LowLevel(d) => digest_wf(d),
    }
}

/// The raw 256-bit integer of either variant's digest bytes.
pub open spec fn mixed_word_val(m: MixedDigest) -> nat {
    match m {
        MixedDigest::HighLevel(f) => f.val(),
        MixedDigest::LowLevel(d) => be_val(d.bytes@),
    }
}

/// The word of either variant, by tag dispatch.
pub fn mixed_to_word(m: &MixedDigest) -> (r: Word256)
    requires
        mixed_wf(*m),
    ensures
        word_val(r) == mixed_word_val(*m),
{
    match m {
        MixedDigest::HighLevel(f) => f.word,
        MixedDigest::LowLevel(d) => digest_to_word(d),
    }
}

} // verus!
