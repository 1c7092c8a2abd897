//! Hierarchical output buffer: an append-only, tree shaped write target.
//! A scope can receive a scalar, a run of scalars, or a finished child
//! scope; the depth-first walk of the tree is the wire order.
use vstd::prelude::*;

verus! {

use crate::digest::Digest;
use crate::digest::MixedDigest;
use crate::digest::be_val;
use crate::digest::digest_to_word;
use crate::digest::digest_wf;
use crate::digest::mixed_wf;
use crate::hex::hex_numeral;
use crate::hex::hex_string;
use crate::hex::hex_string_u128;
use crate::hex::hex_string_u64;
use crate::scalar::Felt;
use crate::scalar::Word256;
use crate::scalar::prime;
use crate::scalar::word_val;

/// Ghost mirror of one buffer entry: either a rendered scalar (a sequence
/// of characters) or a nested scope holding its entries in wire order.
#[verifier::ext_equal]
pub enum SpecEntry {
    Scalar(Seq<char>),
    Node(Seq<SpecEntry>),
}

/// One entry of a scope: a rendered scalar or a finished child scope.
pub enum Entry {
    Scalar(String),
    Node(ScopeNode),
}

/// An append-only scope of the output buffer.
pub struct ScopeNode {
    pub entries: Vec<Entry>,
}

pub open spec fn entry_view(e: Entry) -> SpecEntry
    decreases e,
{
    match e {
        Entry::Scalar(s) => SpecEntry::Scalar(s@),
        Entry::Node(n) => SpecEntry::Node(entries_view(n.entries@)),
    }
}

pub open spec fn entries_view(s: Seq<Entry>) -> Seq<SpecEntry>
    decreases s,
{
    if s.len() == 0 {
        Seq::empty()
    } else {
        entries_view(s.drop_last()).push(entry_view(s.last()))
    }
}

impl View for ScopeNode {
    type V = Seq<SpecEntry>;

    open spec fn view(&self) -> Seq<SpecEntry> {
        entries_view(self.entries@)
    }
}

impl ScopeNode {
    /// A fresh scope with no entries.
    pub fn new() -> (r: ScopeNode)
        ensures
            r@ == Seq::<SpecEntry>::empty(),
    {
        ScopeNode { entries: Vec::new() }
    }

    /// Append an already rendered scalar.
    pub fn push_scalar(&mut self, s: String)
        ensures
            final(self)@ == old(self)@.push(SpecEntry::Scalar(s@)),
    {
        let ghost e = Entry::Scalar(s);
        self.entries.push(Entry::Scalar(s));
        proof {
            assert(self.entries@.drop_last() =~= old(self).entries@);
            assert(self.entries@.last() == e);
            assert(entry_view(e) == SpecEntry::Scalar(s@));
            assert(entries_view(self.entries@)
                == entries_view(old(self).entries@).push(entry_view(e)));
        }
    }

    /// Append a finished child scope; its entries become a nested scope
    /// positioned after everything already written here.
    pub fn push_scope(&mut self, child: ScopeNode)
        ensures
            final(self)@ == old(self)@.push(SpecEntry::Node(child@)),
    {
        let ghost e = Entry::Node(child);
        self.entries.push(Entry::Node(child));
        proof {
            assert(self.entries@.drop_last() =~= old(self).entries@);
            assert(self.entries@.last() == e);
            assert(entry_view(e) == SpecEntry::Node(child@));
            assert(entries_view(self.entries@)
                == entries_view(old(self).entries@).push(entry_view(e)));
        }
    }
    /// Append the canonical scalar of a 64-bit value.
    pub fn write_u64(&mut self, v: u64)
        ensures
            final(self)@ == old(self)@.push(scalar_of(v as nat)),
    {
        let s = hex_string_u64(v);
        self.push_scalar(s);
    }

    /// Append the canonical scalar of a 128-bit value.
    pub fn write_u128(&mut self, v: u128)
        ensures
            final(self)@ == old(self)@.push(scalar_of(v as nat)),
    {
        let s = hex_string_u128(v);
        self.push_scalar(s);
    }

    /// Append the canonical scalar of a field element.
    pub fn write_felt(&mut self, x: &Felt)
        ensures
            final(self)@ == old(self)@.push(scalar_of(x.val())),
    {
        let s = hex_string(&x.word);
        self.push_scalar(s);
    }

    /// Append the canonical scalar of a raw 256-bit word, unreduced.
    pub fn write_word(&mut self, w: &Word256)
        ensures
            final(self)@ == old(self)@.push(scalar_of(word_val(*w))),
    {
        let s = hex_string(w);
        self.push_scalar(s);
    }

    /// Append the canonical scalar of a digest: its big-endian integer
    /// reduced into the field.
    pub fn write_digest(&mut self, d: &Digest)
        requires
            digest_wf(*d),
        ensures
            final(self)@ == old(self)@.push(scalar_of(be_val(d.bytes@) % prime())),
    {
        let w = digest_to_word(d);
        let f = Felt::from_word(&w);
        self.write_felt(&f);
    }

    /// Append the canonical scalar of either digest variant: the tag
    /// picks the representation, the rendered scalar form is one.
    pub fn write_mixed(&mut self, m: &MixedDigest)
        requires
            mixed_wf(*m),
        ensures
            final(self)@ == old(self)@.push(scalar_of(mixed_scalar_val(*m))),
    {
        match m {
            MixedDigest::HighLevel(f) => self.write_felt(f),
            MixedDigest::LowLevel(d) => self.write_digest(d),
        }
    }

    /// Append a run of 64-bit scalars in order.
    pub fn write_u64_run(&mut self, vals: &Vec<u64>)
        ensures
            final(self)@ == old(self)@ + u64_scalars(vals@),
    {
        let mut i: usize = 0;
        while i < vals.len()
            invariant
                i <= vals@.len(),
                self@ == old(self)@ + u64_scalars(vals@.subrange(0, i as int)),
            decreases vals@.len() - i,
        {
            proof {
                assert(vals@.subrange(0, i + 1).drop_last() =~= vals@.subrange(0, i as int));
                assert(u64_scalars(vals@.subrange(0, i + 1)) =~= u64_scalars(
                    vals@.subrange(0, i as int),
                ).push(scalar_of(vals@[i as int] as nat)));
            }
            self.write_u64(vals[i]);
            i = i + 1;
        }
        proof {
            assert(vals@.subrange(0, vals@.len() as int) =~= vals@);
        }
    }

    /// Append the canonical scalars of a run of field elements in order.
    pub fn write_felt_run(&mut self, vals: &Vec<Felt>)
        ensures
            final(self)@ == old(self)@ + felt_scalars(vals@),
    {
        let mut i: usize = 0;
        while i < vals.len()
            invariant
                i <= vals@.len(),
                self@ == old(self)@ + felt_scalars(vals@.subrange(0, i as int)),
            decreases vals@.len() - i,
        {
            proof {
                assert(vals@.subrange(0, i + 1).drop_last() =~= vals@.subrange(0, i as int));
                assert(felt_scalars(vals@.subrange(0, i + 1)) =~= felt_scalars(
                    vals@.subrange(0, i as int),
                ).push(scalar_of(vals@[i as int].val())));
            }
            self.write_felt(&vals[i]);
            i = i + 1;
        }
        proof {
            assert(vals@.subrange(0, vals@.len() as int) =~= vals@);
        }
    }

    /// Append the canonical scalars of a run of raw words in order.
    pub fn write_word_run(&mut self, vals: &Vec<Word256>)
        ensures
            final(self)@ == old(self)@ + word_scalars(vals@),
    {
        let mut i: usize = 0;
        while i < vals.len()
            invariant
                i <= vals@.len(),
                self@ == old(self)@ + word_scalars(vals@.subrange(0, i as int)),
            decreases vals@.len() - i,
        {
            proof {
                assert(vals@.subrange(0, i + 1).drop_last() =~= vals@.subrange(0, i as int));
                assert(word_scalars(vals@.subrange(0, i + 1)) =~= word_scalars(
                    vals@.subrange(0, i as int),
                ).push(scalar_of(word_val(vals@[i as int]))));
            }
            self.write_word(&vals[i]);
            i = i + 1;
        }
        proof {
            assert(vals@.subrange(0, vals@.len() as int) =~= vals@);
        }
    }
}

/// The scalar entry of an integer value.
pub open spec fn scalar_of(v: nat) -> SpecEntry {
    SpecEntry::Scalar(hex_numeral(v))
}

/// The scalar value either digest variant renders to: a high-level hash
/// is already canonical, a low-level one is reduced into the field.
pub open spec fn mixed_scalar_val(m: MixedDigest) -> nat {
    match m {
        MixedDigest::HighLevel(f) => f.val(),
        MixedDigest::LowLevel(d) => be_val(d.bytes@) % prime(),
    }
}

/// The scalar entries of a run of 64-bit values.
pub open spec fn u64_scalars(s: Seq<u64>) -> Seq<SpecEntry> {
    s.map_values(|v: u64| scalar_of(v as nat))
}

/// The scalar entries of a run of field elements.
pub open spec fn felt_scalars(s: Seq<Felt>) -> Seq<SpecEntry> {
    s.map_values(|x: Felt| scalar_of(x.val()))
}

/// The scalar entries of a run of raw words.
pub open spec fn word_scalars(s: Seq<Word256>) -> Seq<SpecEntry> {
    s.map_values(|w: Word256| scalar_of(word_val(w)))
}

/// The scalar entries of a run of integer values.
pub open spec fn nat_scalars(s: Seq<nat>) -> Seq<SpecEntry> {
    s.map_values(|v: nat| scalar_of(v))
}

/// The serialized form of one entry: a quoted scalar or a bracketed,
/// comma separated scope.
pub open spec fn json_of(e: SpecEntry) -> Seq<char>
    decreases e,
{
    match e {
        SpecEntry::Scalar(s) => seq!['"'] + s + seq!['"'],
        SpecEntry::Node(es) => seq!['['] + json_items(es) + seq![']'],
    }
}

/// The comma separated serialized items of a scope, in wire order.
pub open spec fn json_items(es: Seq<SpecEntry>) -> Seq<char>
    decreases es,
{
    if es.len() == 0 {
        Seq::empty()
    } else if es.len() == 1 {
        json_of(es[0])
    } else {
        json_items(es.drop_last()) + seq![','] + json_of(es.last())
    }
}

/// Appending an entry appends its serialized form, after a comma when
/// the scope already holds one.
proof fn lemma_json_items_push(es: Seq<SpecEntry>, e: SpecEntry)
    ensures
        es.len() == 0 ==> json_items(es.push(e)) == json_of(e),
        es.len() > 0 ==> json_items(es.push(e)) == json_items(es) + seq![','] + json_of(e),
{
    assert(es.push(e).drop_last() =~= es);
    assert(es.push(e).last() == e);
    if es.len() == 0 {
        assert(es.push(e)[0] == e);
    }
}

/// Serialize one entry.
fn entry_json(e: &Entry) -> (r: String)
    ensures
        r@ == json_of(entry_view(*e)),
    decreases *e,
{
    match e {
        Entry::Scalar(s) => {
            let mut out = String::new();
            out.append("\"");
            out.append(s.as_str());
            out.append("\"");
            proof {
                reveal_strlit("\"");
                assert(out@ =~= json_of(entry_view(*e)));
            }
            out
        },
        Entry::Node(n) => node_json(n),
    }
}

/// Serialize one scope as a bracketed, comma separated item list.
fn node_json(n: &ScopeNode) -> (r: String)
    ensures
        r@ == json_of(SpecEntry::Node(n@)),
    decreases *n,
{
    let mut out = String::new();
    out.append("[");
    proof {
        reveal_strlit("[");
        assert(out@ =~= seq!['[']);
    }
    let mut i: usize = 0;
    while i < n.entries.len()
        invariant
            i <= n.entries@.len(),
            out@ == seq!['['] + json_items(entries_view(n.entries@.subrange(0, i as int))),
        decreases n.entries@.len() - i,
    {
        if i > 0 {
            out.append(",");
            proof {
                reveal_strlit(",");
            }
        }
        let piece = entry_json(&n.entries[i]);
        out.append(piece.as_str());
        proof {
            let pre = n.entries@.subrange(0, i as int);
            let cur = n.entries@.subrange(0, i + 1);
            assert(cur.drop_last() =~= pre);
            assert(entries_view(cur) == entries_view(pre).push(entry_view(n.entries@[i as int])));
            lemma_json_items_push(entries_view(pre), entry_view(n.entries@[i as int]));
            if i == 0 {
                assert(entries_view(pre) =~= Seq::<SpecEntry>::empty());
            }
            assert(out@ =~= seq!['['] + json_items(entries_view(cur)));
        }
        i = i + 1;
    }
    out.append("]");
    proof {
        reveal_strlit("]");
        assert(n.entries@.subrange(0, n.entries@.len() as int) =~= n.entries@);
        assert(out@ =~= json_of(SpecEntry::Node(n@)));
    }
    out
}

impl ScopeNode {
    /// Serialize the whole buffer: the depth-first walk of the tree,
    /// rendered as nested arrays of quoted scalars.
    pub fn to_json(&self) -> (r: String)
        ensures
            r@ == json_of(SpecEntry::Node(self@)),
    {
        node_json(self)
    }
}

} // verus!
