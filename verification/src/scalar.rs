//! 256-bit unsigned words and prime-field scalars.
//!
//! A `Word256` carries an unsigned integer below 2^256 in four 64-bit
//! limbs, least significant first.  A `Felt` is such an integer reduced
//! below the field modulus 2^251 + 17 * 2^192 + 1; every value a proof
//! carries is canonicalized to one before it is rendered.
use vstd::prelude::*;

verus! {

use vstd::arithmetic::div_mod::lemma_mod_sub_multiples_vanish;
use vstd::arithmetic::div_mod::lemma_small_mod;

/// A 256-bit unsigned integer: `d0` is the least significant limb.
#[derive(Clone, Copy)]
pub struct Word256 {
    pub d0: u64,
    pub d1: u64,
    pub d2: u64,
    pub d3: u64,
}

/// The integer a word stands for.
pub open spec fn word_val(w: Word256) -> nat {
    ((w.d0 as int) + (w.d1 as int) * 0x10000000000000000
        + (w.d2 as int) * 0x100000000000000000000000000000000
        + (w.d3 as int) * 0x1000000000000000000000000000000000000000000000000) as nat
}

/// The field modulus 2^251 + 17 * 2^192 + 1.
pub open spec fn prime() -> nat {
    0x800000000000011000000000000000000000000000000000000000000000001nat
}

/// A field element: a word whose value lies below the modulus.
#[derive(Clone, Copy)]
pub struct Felt {
    pub word: Word256,
}

impl Felt {
    /// The integer this element stands for.
    pub open spec fn val(self) -> nat {
        word_val(self.word)
    }

    /// Canonical elements carry a value below the modulus.
    pub open spec fn valid(self) -> bool {
        self.val() < prime()
    }

    /// The element of a small integer; values below 2^64 never wrap.
    pub fn from_u64(v: u64) -> (r: Felt)
        ensures
            r.val() == v,
            r.valid(),
    {
        Felt { word: Word256 { d0: v, d1: 0, d2: 0, d3: 0 } }
    }

    /// Reduce a 256-bit word into the field.
    pub fn from_word(w: &Word256) -> (r: Felt)
        ensures
            r.val() == word_val(*w) % prime(),
            r.valid(),
    {
        Felt { word: reduce(w) }
    }
}

impl Word256 {
    /// The word of a small integer.
    pub fn from_u64(v: u64) -> (r: Word256)
        ensures
            word_val(r) == v,
    {
        Word256 { d0: v, d1: 0, d2: 0, d3: 0 }
    }

    /// The word of a 128-bit integer.
    pub fn from_u128(v: u128) -> (r: Word256)
        ensures
            word_val(r) == v,
    {
        let lo = #[verifier::truncate] (v as u64);
        let hi = (v >> 64) as u64;
        proof {
            assert(((v as u64) as u128) == v % 0x10000000000000000 && (((v >> 64) as u64) as u128)
                == v / 0x10000000000000000) by (bit_vector);
        }
        Word256 { d0: lo, d1: hi, d2: 0, d3: 0 }
    }

    /// True exactly of the zero word.
    pub fn is_zero(&self) -> (r: bool)
        ensures
            r == (word_val(*self) == 0),
    {
        self.d0 == 0 && self.d1 == 0 && self.d2 == 0 && self.d3 == 0
    }
}

/// The modulus as a word.
fn prime_word() -> (r: Word256)
    ensures
        word_val(r) == prime(),
{
    Word256 { d0: 1, d1: 0, d2: 0, d3: 0x0800000000000011 }
}

/// Whether `a` carries at least the value of `b`.
pub fn word_ge(a: &Word256, b: &Word256) -> (r: bool)
    ensures
        r == (word_val(*a) >= word_val(*b)),
{
    if a.d3 != b.d3 {
        a.d3 > b.d3
    } else if a.d2 != b.d2 {
        a.d2 > b.d2
    } else if a.d1 != b.d1 {
        a.d1 > b.d1
    } else {
        a.d0 >= b.d0
    }
}

/// One limb of a borrowing subtraction: `a - b - c` with the borrow out.
fn sub_limb(a: u64, b: u64, c: u64) -> (r: (u64, u64))
    requires
        c <= 1,
    ensures
        r.1 <= 1,
        r.0 == a - b - c + (r.1 as int) * 0x10000000000000000,
{
    let bc = b as u128 + c as u128;
    if (a as u128) >= bc {
        (((a as u128) - bc) as u64, 0)
    } else {
        ((a as u128 + 0x10000000000000000u128 - bc) as u64, 1)
    }
}

/// Limb-wise subtraction of words; the caller keeps the difference
/// nonnegative, so no borrow leaves the top limb.
pub fn word_sub(a: &Word256, b: &Word256) -> (r: Word256)
    requires
        word_val(*b) <= word_val(*a),
    ensures
        word_val(r) == word_val(*a) - word_val(*b),
{
    let (r0, c0) = sub_limb(a.d0, b.d0, 0);
    let (r1, c1) = sub_limb(a.d1, b.d1, c0);
    let (r2, c2) = sub_limb(a.d2, b.d2, c1);
    let (r3, c3) = sub_limb(a.d3, b.d3, c2);
    let r = Word256 { d0: r0, d1: r1, d2: r2, d3: r3 };
    proof {
        assert(word_val(r) < 0x10000000000000000000000000000000000000000000000000000000000000000int);
        assert(word_val(r) == word_val(*a) - word_val(*b) + (c3 as int) * 0x10000000000000000000000000000000000000000000000000000000000000000int);
    }
    r
}

/// Reduce a word below the modulus by repeated subtraction; the quotient
/// of a 256-bit value by the 252-bit modulus is at most 31.
fn reduce(w: &Word256) -> (r: Word256)
    ensures
        word_val(r) == word_val(*w) % prime(),
{
    let p = prime_word();
    let mut cur = *w;
    while word_ge(&cur, &p)
        invariant
            word_val(p) == prime(),
            word_val(cur) % prime() == word_val(*w) % prime(),
        decreases word_val(cur),
    {
        proof {
            lemma_mod_sub_multiples_vanish(word_val(cur) as int, prime() as int);
        }
        cur = word_sub(&cur, &p);
    }
    proof {
        lemma_small_mod(word_val(cur), prime());
    }
    cur
}

} // verus!
