//! Canonical hexadecimal numerals.
//!
//! Every scalar leaves the encoder as `0x` followed by lowercase hex
//! digits with no leading zero (the single digit `0` for zero), the same
//! numeral a native hex rendering of the integer produces.
use vstd::prelude::*;

verus! {

use crate::scalar::Word256;
use crate::scalar::word_val;
use vstd::arithmetic::div_mod::lemma_div_decreases;
use vstd::arithmetic::div_mod::lemma_fundamental_div_mod;
use vstd::arithmetic::div_mod::lemma_fundamental_div_mod_converse;
use vstd::arithmetic::div_mod::lemma_mod_multiples_vanish;

/// The lowercase digit of a value below sixteen.
pub open spec fn hex_digit_char(d: nat) -> char {
    if d == 0 {
        '0'
    } else if d == 1 {
        '1'
    } else if d == 2 {
        '2'
    } else if d == 3 {
        '3'
    } else if d == 4 {
        '4'
    } else if d == 5 {
        '5'
    } else if d == 6 {
        '6'
    } else if d == 7 {
        '7'
    } else if d == 8 {
        '8'
    } else if d == 9 {
        '9'
    } else if d == 10 {
        'a'
    } else if d == 11 {
        'b'
    } else if d == 12 {
        'c'
    } else if d == 13 {
        'd'
    } else if d == 14 {
        'e'
    } else {
        'f'
    }
}

/// The hex digits of a value, most significant first, without leading
/// zeros; zero itself is the single digit `0`.
pub open spec fn hex_digits(v: nat) -> Seq<char>
    decreases v,
{
    if v < 16 {
        seq![hex_digit_char(v)]
    } else {
        hex_digits(v / 16).push(hex_digit_char(v % 16))
    }
}

/// The full numeral: `0x` followed by the digits.
pub open spec fn hex_numeral(v: nat) -> Seq<char> {
    seq!['0', 'x'] + hex_digits(v)
}

/// The value a digit character stands for.
pub open spec fn hex_char_val(c: char) -> nat {
    if c == '0' {
        0
    } else if c == '1' {
        1
    } else if c == '2' {
        2
    } else if c == '3' {
        3
    } else if c == '4' {
        4
    } else if c == '5' {
        5
    } else if c == '6' {
        6
    } else if c == '7' {
        7
    } else if c == '8' {
        8
    } else if c == '9' {
        9
    } else if c == 'a' {
        10
    } else if c == 'b' {
        11
    } else if c == 'c' {
        12
    } else if c == 'd' {
        13
    } else if c == 'e' {
        14
    } else {
        15
    }
}

/// The integer a sequence of hex digits stands for.
pub open spec fn hex_seq_val(s: Seq<char>) -> nat
    decreases s.len(),
{
    if s.len() == 0 {
        0
    } else {
        hex_seq_val(s.drop_last()) * 16 + hex_char_val(s.last())
    }
}

/// Reading a rendered digit gives its value back.
proof fn lemma_digit_inverse(d: nat)
    requires
        d < 16,
    ensures
        hex_char_val(hex_digit_char(d)) == d,
{
}

/// Decoding the rendered digits of a value gives the value back: the
/// numeral is a faithful, lossless image of the integer.
pub proof fn lemma_hex_round_trip(v: nat)
    ensures
        hex_seq_val(hex_digits(v)) == v,
    decreases v,
{
    if v < 16 {
        let s = hex_digits(v);
        assert(s.drop_last() =~= Seq::<char>::empty());
        lemma_digit_inverse(v);
        assert(hex_seq_val(s) == hex_seq_val(s.drop_last()) * 16 + hex_char_val(s.last()));
    } else {
        lemma_div_decreases(v as int, 16);
        lemma_hex_round_trip(v / 16);
        lemma_digit_inverse(v % 16);
        let s = hex_digits(v);
        assert(s.drop_last() =~= hex_digits(v / 16));
        assert(hex_seq_val(s) == hex_seq_val(s.drop_last()) * 16 + hex_char_val(s.last()));
        lemma_fundamental_div_mod(v as int, 16);
    }
}

/// The digit characters of collected low-order digits, highest first.
pub open spec fn digit_chars_rev(ds: Seq<u64>) -> Seq<char> {
    Seq::new(ds.len(), |i: int| hex_digit_char(ds[ds.len() - 1 - i] as nat))
}

/// One more collected digit lands in front of the rendered run.
proof fn lemma_digit_chars_rev_push(ds: Seq<u64>, x: u64)
    ensures
        digit_chars_rev(ds.push(x)) =~= seq![hex_digit_char(x as nat)] + digit_chars_rev(ds),
{
}

/// The string slice holding one digit.
fn hex_digit_str(d: u64) -> (r: &'static str)
    requires
        d < 16,
    ensures
        r@ =~= seq![hex_digit_char(d as nat)],
{
    if d == 0 {
        proof {
            reveal_strlit("0");
        }
        "0"
    } else if d == 1 {
        proof {
            reveal_strlit("1");
        }
        "1"
    } else if d == 2 {
        proof {
            reveal_strlit("2");
        }
        "2"
    } else if d == 3 {
        proof {
            reveal_strlit("3");
        }
        "3"
    } else if d == 4 {
        proof {
            reveal_strlit("4");
        }
        "4"
    } else if d == 5 {
        proof {
            reveal_strlit("5");
        }
        "5"
    } else if d == 6 {
        proof {
            reveal_strlit("6");
        }
        "6"
    } else if d == 7 {
        proof {
            reveal_strlit("7");
        }
        "7"
    } else if d == 8 {
        proof {
            reveal_strlit("8");
        }
        "8"
    } else if d == 9 {
        proof {
            reveal_strlit("9");
        }
        "9"
    } else if d == 10 {
        proof {
            reveal_strlit("a");
        }
        "a"
    } else if d == 11 {
        proof {
            reveal_strlit("b");
        }
        "b"
    } else if d == 12 {
        proof {
            reveal_strlit("c");
        }
        "c"
    } else if d == 13 {
        proof {
            reveal_strlit("d");
        }
        "d"
    } else if d == 14 {
        proof {
            reveal_strlit("e");
        }
        "e"
    } else {
        proof {
            reveal_strlit("f");
        }
        "f"
    }
}

/// Quotient of a word by sixteen, one nibble shifted across the limbs.
pub fn word_div16(a: &Word256) -> (r: Word256)
    ensures
        word_val(r) == word_val(*a) / 16,
{
    let x0 = a.d0;
    let x1 = a.d1;
    let x2 = a.d2;
    let x3 = a.d3;
    let r0 = (x0 >> 4) | (x1 << 60);
    let r1 = (x1 >> 4) | (x2 << 60);
    let r2 = (x2 >> 4) | (x3 << 60);
    let r3 = x3 >> 4;
    let r = Word256 { d0: r0, d1: r1, d2: r2, d3: r3 };
    proof {
        assert((x0 >> 4) | (x1 << 60) == x0 / 16 + (x1 % 16) * 0x1000000000000000) by (bit_vector);
        assert((x1 >> 4) | (x2 << 60) == x1 / 16 + (x2 % 16) * 0x1000000000000000) by (bit_vector);
        assert((x2 >> 4) | (x3 << 60) == x2 / 16 + (x3 % 16) * 0x1000000000000000) by (bit_vector);
        assert(x3 >> 4 == x3 / 16) by (bit_vector);
        lemma_fundamental_div_mod(x0 as int, 16);
        lemma_fundamental_div_mod(x1 as int, 16);
        lemma_fundamental_div_mod(x2 as int, 16);
        lemma_fundamental_div_mod(x3 as int, 16);
        assert(word_val(*a) == 16 * word_val(r) + (x0 % 16));
        lemma_fundamental_div_mod_converse(
            word_val(*a) as int,
            16,
            word_val(r) as int,
            (x0 % 16) as int,
        );
    }
    r
}

/// Remainder of a word by sixteen: the low nibble of the low limb.
pub fn word_mod16(a: &Word256) -> (r: u64)
    ensures
        r == word_val(*a) % 16,
        r < 16,
{
    let r = a.d0 % 16;
    proof {
        let q = (a.d1 as int) * 0x1000000000000000 + (a.d2 as int)
            * 0x10000000000000000000000000000000 + (a.d3 as int)
            * 0x100000000000000000000000000000000000000000000000;
        assert(word_val(*a) == 16 * q + a.d0);
        lemma_mod_multiples_vanish(q, a.d0 as int, 16);
    }
    r
}

/// Render a word as its canonical hexadecimal numeral.
pub fn hex_string(w: &Word256) -> (r: String)
    ensures
        r@ == hex_numeral(word_val(*w)),
{
    let ghost orig = word_val(*w);
    let mut digits: Vec<u64> = Vec::new();
    let mut cur = *w;
    let d0 = word_mod16(&cur);
    cur = word_div16(&cur);
    digits.push(d0);
    proof {
        assert(digits@.drop_last() =~= Seq::<u64>::empty());
        if orig < 16 {
            assert(hex_digits(orig) =~= digit_chars_rev(digits@));
        } else {
            assert(word_val(cur) > 0);
            assert(hex_digits(orig) =~= hex_digits(word_val(cur)) + digit_chars_rev(digits@));
        }
    }
    while !cur.is_zero()
        invariant
            digits@.len() >= 1,
            forall|i: int| 0 <= i < digits@.len() ==> digits@[i] < 16,
            word_val(cur) > 0 ==> hex_digits(orig) == hex_digits(word_val(cur)) + digit_chars_rev(
                digits@,
            ),
            word_val(cur) == 0 ==> hex_digits(orig) == digit_chars_rev(digits@),
        decreases word_val(cur),
    {
        let ghost pre = digits@;
        let ghost c = word_val(cur);
        let d = word_mod16(&cur);
        cur = word_div16(&cur);
        digits.push(d);
        proof {
            lemma_div_decreases(c as int, 16);
            lemma_digit_chars_rev_push(pre, d);
            if c < 16 {
                assert(hex_digits(c) =~= seq![hex_digit_char((c % 16) as nat)]);
                assert(hex_digits(orig) =~= digit_chars_rev(digits@));
            } else {
                assert(hex_digits(c) == hex_digits(c / 16).push(hex_digit_char((c % 16) as nat)));
                assert(hex_digits(c) =~= hex_digits(c / 16) + seq![hex_digit_char((c % 16) as nat)]);
                assert(hex_digits(orig) =~= hex_digits(word_val(cur)) + digit_chars_rev(digits@));
            }
        }
    }
    let mut s = String::new();
    s.append("0x");
    proof {
        reveal_strlit("0x");
        assert(s@ =~= seq!['0', 'x']);
    }
    let mut j = digits.len();
    while j > 0
        invariant
            j <= digits@.len(),
            forall|i: int| 0 <= i < digits@.len() ==> digits@[i] < 16,
            hex_digits(orig) == digit_chars_rev(digits@),
            s@ == seq!['0', 'x'] + digit_chars_rev(digits@).subrange(
                0,
                digits@.len() - j,
            ),
        decreases j,
    {
        let ghost k0 = digits@.len() - j;
        j = j - 1;
        let piece = hex_digit_str(digits[j]);
        s.append(piece);
        proof {
            assert(digit_chars_rev(digits@)[k0] == hex_digit_char(digits@[j as int] as nat));
            assert(digit_chars_rev(digits@).subrange(0, k0 + 1) =~= digit_chars_rev(
                digits@,
            ).subrange(0, k0).push(digit_chars_rev(digits@)[k0]));
            assert(s@ =~= seq!['0', 'x'] + digit_chars_rev(digits@).subrange(0, k0 + 1));
        }
    }
    proof {
        assert(digit_chars_rev(digits@).subrange(0, digits@.len() as int) =~= digit_chars_rev(
            digits@,
        ));
    }
    s
}

/// Render a 64-bit value as its canonical numeral.
pub fn hex_string_u64(v: u64) -> (r: String)
    ensures
        r@ == hex_numeral(v as nat),
{
    let w = Word256::from_u64(v);
    hex_string(&w)
}

/// Render a 128-bit value as its canonical numeral.
pub fn hex_string_u128(v: u128) -> (r: String)
    ensures
        r@ == hex_numeral(v as nat),
{
    let w = Word256::from_u128(v);
    hex_string(&w)
}

} // verus!
