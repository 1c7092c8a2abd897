//! FRI folding and witness deduplication.
//!
//! One round maps every query position to `position / f`, collapsing
//! coset mates to a single folded position in first-seen order, and
//! keeps of the round's flattened coset rows only the values whose
//! absolute index was not queried directly: those the verifier already
//! holds need not be resent.
use vstd::prelude::*;

verus! {

use crate::scalar::Felt;
use vstd::arithmetic::div_mod::lemma_fundamental_div_mod;
use vstd::multiset::Multiset;

/// Folded positions of a query run: each position divided by the
/// folding factor, first occurrence kept, order preserved.
pub open spec fn spec_fold_positions(s: Seq<u64>, f: u64) -> Seq<u64>
    decreases s.len(),
{
    if s.len() == 0 {
        Seq::empty()
    } else {
        let rest = spec_fold_positions(s.drop_last(), f);
        let v = s.last() / f;
        if rest.contains(v) {
            rest
        } else {
            rest.push(v)
        }
    }
}

/// Whether a run holds a value; a plain scan.
fn contains_u64(s: &Vec<u64>, x: u64) -> (r: bool)
    ensures
        r == s@.contains(x),
{
    let mut i: usize = 0;
    while i < s.len()
        invariant
            i <= s@.len(),
            forall|j: int| 0 <= j < i ==> s@[j] != x,
        decreases s@.len() - i,
    {
        if s[i] == x {
            return true;
        }
        i = i + 1;
    }
    false
}

/// Fold a round's query positions by the folding factor.
pub fn fold_positions(positions: &Vec<u64>, f: u64) -> (r: Vec<u64>)
    requires
        f >= 1,
    ensures
        r@ == spec_fold_positions(positions@, f),
{
    let mut out: Vec<u64> = Vec::new();
    let mut i: usize = 0;
    while i < positions.len()
        invariant
            f >= 1,
            i <= positions@.len(),
            out@ == spec_fold_positions(positions@.subrange(0, i as int), f),
        decreases positions@.len() - i,
    {
        proof {
            assert(positions@.subrange(0, i + 1).drop_last() =~= positions@.subrange(0, i as int));
        }
        let v = positions[i] / f;
        if !contains_u64(&out, v) {
            out.push(v);
        }
        i = i + 1;
    }
    proof {
        assert(positions@.subrange(0, positions@.len() as int) =~= positions@);
    }
    out
}

/// Whether the coset slot `t` of the flat row run is re-sent: only when
/// its absolute index was not queried directly this round.
pub open spec fn slot_emitted(folded: Seq<u64>, f: u64, positions: Seq<u64>, t: int) -> bool {
    !positions.contains((folded[t / (f as int)] * f + (t % (f as int))) as u64)
}

/// The deduplicated witness: the first `n` flat row values whose slot is
/// emitted, in row order.
pub open spec fn spec_witness_prefix(
    folded: Seq<u64>,
    f: u64,
    rows: Seq<Felt>,
    positions: Seq<u64>,
    n: int,
) -> Seq<Felt>
    decreases n,
{
    if n <= 0 {
        Seq::empty()
    } else {
        let prev = spec_witness_prefix(folded, f, rows, positions, n - 1);
        if slot_emitted(folded, f, positions, n - 1) {
            prev.push(rows[n - 1])
        } else {
            prev
        }
    }
}

/// The whole deduplicated leaf witness of a round.
pub open spec fn spec_fri_witness(
    folded: Seq<u64>,
    f: u64,
    rows: Seq<Felt>,
    positions: Seq<u64>,
) -> Seq<Felt> {
    spec_witness_prefix(folded, f, rows, positions, rows.len() as int)
}

/// The values the verifier recomputes itself: the flat row values at
/// directly queried slots, in row order.
pub open spec fn spec_direct_prefix(
    folded: Seq<u64>,
    f: u64,
    rows: Seq<Felt>,
    positions: Seq<u64>,
    n: int,
) -> Seq<Felt>
    decreases n,
{
    if n <= 0 {
        Seq::empty()
    } else {
        let prev = spec_direct_prefix(folded, f, rows, positions, n - 1);
        if slot_emitted(folded, f, positions, n - 1) {
            prev
        } else {
            prev.push(rows[n - 1])
        }
    }
}

/// Deduplicated leaf witness of one round: walks cosets in folded order
/// and keeps each value whose absolute index was not queried directly.
pub fn fri_layer_witness(
    positions: &Vec<u64>,
    folded: &Vec<u64>,
    f: u64,
    rows: &Vec<Felt>,
) -> (r: Vec<Felt>)
    requires
        f >= 1,
        rows@.len() == folded@.len() * f,
        forall|j: int| 0 <= j < folded@.len() ==> folded@[j] as int <= (u64::MAX - f) as int
            / f as int,
    ensures
        r@ == spec_fri_witness(folded@, f, rows@, positions@),
{
    let nrows = rows.len();
    let mut out: Vec<Felt> = Vec::new();
    let mut ridx: usize = 0;
    let mut j: usize = 0;
    while j < folded.len()
        invariant
            f >= 1,
            j <= folded@.len(),
            nrows == rows@.len(),
            rows@.len() == folded@.len() * f,
            forall|k: int| 0 <= k < folded@.len() ==> folded@[k] as int <= (u64::MAX - f) as int
                / f as int,
            ridx as int == j * f,
            ridx <= nrows,
            out@ == spec_witness_prefix(folded@, f, rows@, positions@, ridx as int),
        decreases folded@.len() - j,
    {
        let mut i: u64 = 0;
        proof {
            mul_succ(j as int, f as int);
            mul_le_mono(j as int + 1, folded@.len() as int, f as int);
        }
        while i < f
            invariant
                f >= 1,
                j < folded@.len(),
                i <= f,
                nrows == rows@.len(),
                rows@.len() == folded@.len() * f,
                forall|k: int| 0 <= k < folded@.len() ==> folded@[k] as int <= (u64::MAX
                    - f) as int / f as int,
                (j + 1) * f <= rows@.len(),
                ridx as int == j * f + i,
                out@ == spec_witness_prefix(folded@, f, rows@, positions@, ridx as int),
            decreases f - i,
        {
            proof {
                mul_succ(j as int, f as int);
                assert(ridx as int / (f as int) == j as int && ridx as int % (f as int)
                    == i as int) by {
                    vstd::arithmetic::div_mod::lemma_fundamental_div_mod_converse(
                        ridx as int,
                        f as int,
                        j as int,
                        i as int,
                    );
                }
                div_cap_mul(folded@[j as int] as int, f as int);
            }
            let abs = folded[j] * f + i;
            if !contains_u64(positions, abs) {
                out.push(rows[ridx]);
            }
            ridx = ridx + 1;
            i = i + 1;
        }
        j = j + 1;
        proof {
            mul_succ(j as int - 1, f as int);
        }
    }
    out
}

/// Stepping the coset index advances the flat index by one coset.
proof fn mul_succ(a: int, f: int)
    ensures
        (a + 1) * f == a * f + f,
{
    vstd::arithmetic::mul::lemma_mul_is_distributive_add(f, a, 1);
    vstd::arithmetic::mul::lemma_mul_is_commutative(a + 1, f);
    vstd::arithmetic::mul::lemma_mul_is_commutative(a, f);
    vstd::arithmetic::mul::lemma_mul_basics(f);
}


/// The round's space-saving law: split the flat coset rows by whether a
/// slot was queried directly, and the deduplicated witness together with
/// the directly queried values is exactly the full coset set — nothing
/// is both resent and queried, and nothing is omitted.
pub proof fn lemma_fri_dedup_partition(
    folded: Seq<u64>,
    f: u64,
    rows: Seq<Felt>,
    positions: Seq<u64>,
    n: int,
)
    requires
        0 <= n <= rows.len(),
    ensures
        spec_witness_prefix(folded, f, rows, positions, n).to_multiset().add(
            spec_direct_prefix(folded, f, rows, positions, n).to_multiset(),
        ) =~= rows.subrange(0, n).to_multiset(),
    decreases n,
{
    broadcast use vstd::seq_lib::group_to_multiset_ensures;

    if n == 0 {
        assert(rows.subrange(0, 0) =~= Seq::<Felt>::empty());
        assert(Seq::<Felt>::empty().to_multiset() =~= Multiset::<Felt>::empty());
    } else {
        lemma_fri_dedup_partition(folded, f, rows, positions, n - 1);
        assert(rows.subrange(0, n).drop_last() =~= rows.subrange(0, n - 1));
        assert(rows.subrange(0, n) =~= rows.subrange(0, n - 1).push(rows[n - 1]));
    }
}

/// Every queried position lands in a coset the fold keeps: its folded
/// position is among the round's folded positions, and its own slot is
/// never re-sent in the witness.
pub proof fn lemma_fri_queried_covered(positions: Seq<u64>, f: u64, k: int)
    requires
        f >= 1,
        0 <= k < positions.len(),
    ensures
        ({
            let folded = spec_fold_positions(positions, f);
            exists|j: int|
                0 <= j < folded.len() && folded[j] == positions[k] / f && !slot_emitted(
                    folded,
                    f,
                    positions,
                    j * f + (positions[k] % f),
                )
        }),
{
    let folded = spec_fold_positions(positions, f);
    let p = positions[k];
    lemma_fold_positions_arity(positions, f);
    assert(folded.contains(p / f));
    let j = choose|j: int| 0 <= j < folded.len() && folded[j] == p / f;
    let t = j * f + (p % f);
    assert(t / (f as int) == j && t % (f as int) == p % f) by {
        vstd::arithmetic::div_mod::lemma_fundamental_div_mod_converse(
            t,
            f as int,
            j,
            (p % f) as int,
        );
    }
    vstd::arithmetic::div_mod::lemma_fundamental_div_mod(p as int, f as int);
    vstd::arithmetic::mul::lemma_mul_is_commutative((p / f) as int, f as int);
    assert((p / f) as int * (f as int) + (p % f) as int == p as int);
    assert((folded[t / (f as int)] * f + (t % (f as int))) as u64 == p);
    assert(positions.contains(p));
    assert(!slot_emitted(folded, f, positions, t));
}

/// The folding arity law: the folded run repeats nothing, holds exactly
/// the quotients of the input positions, and never outgrows the input.
pub proof fn lemma_fold_positions_arity(s: Seq<u64>, f: u64)
    requires
        f >= 1,
    ensures
        spec_fold_positions(s, f).no_duplicates(),
        forall|i: int|
            0 <= i < s.len() ==> spec_fold_positions(s, f).contains(#[trigger] (s[i] / f)),
        forall|j: int|
            0 <= j < spec_fold_positions(s, f).len() ==> exists|i: int|
                0 <= i < s.len() && #[trigger] spec_fold_positions(s, f)[j] == s[i] / f,
        spec_fold_positions(s, f).len() <= s.len(),
    decreases s.len(),
{
    if s.len() > 0 {
        lemma_fold_positions_arity(s.drop_last(), f);
        let rest = spec_fold_positions(s.drop_last(), f);
        let r = spec_fold_positions(s, f);
        let v = s.last() / f;
        assert forall|i: int| 0 <= i < s.len() implies r.contains(#[trigger] (s[i] / f)) by {
            if i < s.len() - 1 {
                assert(s.drop_last()[i] == s[i]);
                assert(rest.contains(s[i] / f));
                let w = choose|w: int| 0 <= w < rest.len() && rest[w] == s[i] / f;
                assert(r[w] == s[i] / f);
            } else {
                if rest.contains(v) {
                    let w = choose|w: int| 0 <= w < rest.len() && rest[w] == v;
                    assert(r[w] == v);
                } else {
                    assert(r[r.len() - 1] == v);
                }
            }
        }
        assert forall|j: int| 0 <= j < r.len() implies exists|i: int|
            0 <= i < s.len() && #[trigger] r[j] == s[i] / f by {
            if j < rest.len() {
                let i = choose|i: int| 0 <= i < s.drop_last().len() && rest[j] == s.drop_last()[i]
                    / f;
                assert(s[i] == s.drop_last()[i]);
                assert(r[j] == s[i] / f);
            } else {
                assert(r[j] == v);
                assert(r[j] == s[s.len() - 1] / f);
            }
        }
        if !rest.contains(v) {
            assert forall|a: int, b: int| 0 <= a < b < r.len() implies r[a] != r[b] by {
                if b < rest.len() {
                    assert(rest[a] != rest[b]);
                } else {
                    assert(r[b] == v);
                    assert(rest[a] == r[a]);
                    assert(rest.contains(rest[a]));
                }
            }
        }
    }
}


/// First-seen order is stable: folding a prefix of the positions yields
/// a prefix of the folded run — later positions only ever append new
/// folded positions, never reorder the ones already seen.
pub proof fn lemma_fold_positions_prefix(s: Seq<u64>, f: u64, m: int)
    requires
        f >= 1,
        0 <= m <= s.len(),
    ensures
        spec_fold_positions(s.take(m), f).is_prefix_of(spec_fold_positions(s, f)),
    decreases s.len() - m,
{
    let a = spec_fold_positions(s.take(m), f);
    if m == s.len() {
        assert(s.take(m) =~= s);
        assert(a.is_prefix_of(a));
    } else {
        lemma_fold_positions_prefix(s, f, m + 1);
        let b = spec_fold_positions(s.take(m + 1), f);
        let c = spec_fold_positions(s, f);
        assert(s.take(m + 1).drop_last() =~= s.take(m));
        assert(a.is_prefix_of(b));
        assert forall|i: int| 0 <= i < a.len() implies a[i] == c[i] by {
            assert(a[i] == b.subrange(0, a.len() as int)[i]);
            assert(b[i] == c.subrange(0, b.len() as int)[i]);
        }
        assert(a =~= c.subrange(0, a.len() as int));
    }
}

/// Multiplying both sides of `a <= b` by a nonnegative factor keeps the
/// order.
proof fn mul_le_mono(a: int, b: int, c: int)
    requires
        a <= b,
        c >= 0,
    ensures
        a * c <= b * c,
{
    vstd::arithmetic::mul::lemma_mul_inequality(a, b, c);
}

/// A value below the bound `(m - f) / f` times `f`, plus anything below
/// `f`, stays below `m`.
proof fn div_cap_mul(p: int, f: int)
    requires
        f >= 1,
        0 <= p <= (0xffffffffffffffff - f) / f,
    ensures
        p * f + f <= 0xffffffffffffffff,
{
    vstd::arithmetic::mul::lemma_mul_inequality(p, (0xffffffffffffffff - f) / f, f);
    vstd::arithmetic::div_mod::lemma_fundamental_div_mod(0xffffffffffffffff - f, f);
    vstd::arithmetic::div_mod::lemma_mod_division_less_than_divisor(0xffffffffffffffff - f, f);
    vstd::arithmetic::mul::lemma_mul_is_commutative((0xffffffffffffffff - f) / f, f);
}

} // verus!
