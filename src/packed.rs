use vstd::prelude::*;

use crate::nuc::{
    code, invalid_chars, lemma_code_round_trip, nuc_of_bits, nuc_of_char, nuc_of_code, nucs_of, Nuc,
    ParseNucError,
};
use vstd::string::StrSliceExecFns;

verus! {

/// The ways in which a query on a packed sequence can fail.
#[derive(Debug, Clone, Copy, PartialEq, Eq, Structural)]
pub enum ErrorKind {
    /// The index is not below the sequence's length.
    IndexOutOfBounds,
    /// There is nothing to summarise in an empty sequence.
    EmptySequence,
}

/// Packs up to four nucleotides into one byte: each new one is shifted in
/// from the right, so the earliest ends up in the highest of the used bit pairs.
pub open spec fn pack_group(g: Seq<Nuc>) -> u8
    decreases g.len(),
{
    if g.len() == 0 {
        0
    } else {
        (pack_group(g.drop_last()) << 2u8) | code(g.last())
    }
}

/// How many nucleotides of a sequence of length `len` go into byte `k`.
pub open spec fn group_len(len: nat, k: nat) -> nat {
    if 4 * k + 4 <= len {
        4
    } else {
        (len - 4 * k) as nat
    }
}

/// The nucleotides of `s` that go into byte `k`.
pub open spec fn group(s: Seq<Nuc>, k: nat) -> Seq<Nuc> {
    s.subrange((4 * k) as int, (4 * k + group_len(s.len(), k)) as int)
}

/// The packed bytes of a sequence: four nucleotides to a byte, in order,
/// and a last byte that holds what is left over.
pub open spec fn packed(s: Seq<Nuc>) -> Seq<u8> {
    Seq::new((s.len() + 3) / 4, |k: int| pack_group(group(s, k as nat)))
}

/// How far the nucleotide at index `i` stands shifted within its byte.
pub open spec fn shift_of(len: nat, i: nat) -> u8 {
    (2 * (group_len(len, i / 4) - 1 - i % 4)) as u8
}

/// The nucleotides that `len` packed nucleotides in the bytes `d` stand for.
pub open spec fn unpack(d: Seq<u8>, len: nat) -> Seq<Nuc> {
    Seq::new(len, |i: int| nuc_of_bits(d[i / 4] >> shift_of(len, i as nat)))
}

/// Whether `d` can hold `len` packed nucleotides: one byte for each four or
/// fewer, and the unused high bits of a partly filled last byte zero.
pub open spec fn packing_ok(d: Seq<u8>, len: nat) -> bool {
    &&& d.len() == (len + 3) / 4
    &&& len % 4 != 0 ==> d.last() >> ((2 * (len % 4)) as u8) == 0
}

proof fn lemma_shift_in(x: u8, c: u8, j: u8)
    requires
        c < 4,
        j < 3,
    ensures
        ((x << 2u8) | c) & 3u8 == c,
        (((x << 2u8) | c) >> (2 * j + 2) as u8) & 3u8 == (x >> (2 * j) as u8) & 3u8,
        x >> (2 * j) as u8 == 0 ==> ((x << 2u8) | c) >> (2 * j + 2) as u8 == 0,
{
    assert(((x << 2u8) | c) & 3u8 == c) by (bit_vector)
        requires
            c < 4,
    ;
    assert((((x << 2u8) | c) >> (2 * j + 2) as u8) & 3u8 == (x >> (2 * j) as u8) & 3u8)
        by (bit_vector)
        requires
            c < 4,
            j < 3,
    ;
    assert(x >> (2 * j) as u8 == 0 ==> ((x << 2u8) | c) >> (2 * j + 2) as u8 == 0)
        by (bit_vector)
        requires
            c < 4,
            j < 3,
    ;
}

/// Each nucleotide of a group can be read back from the packed byte.
proof fn lemma_group_digit(g: Seq<Nuc>, p: int)
    requires
        g.len() <= 4,
        0 <= p < g.len(),
    ensures
        nuc_of_bits(pack_group(g) >> (2 * (g.len() - 1 - p)) as u8) == g[p],
    decreases g.len(),
{
    let x = pack_group(g.drop_last());
    let c = code(g.last());
    lemma_code_round_trip(g.last());
    lemma_code_round_trip(g[p]);
    if p == g.len() - 1 {
        lemma_shift_in(x, c, 0);
        let y = pack_group(g);
        assert(y >> 0u8 == y) by (bit_vector);
    } else {
        let j = (g.len() - 2 - p) as u8;
        lemma_shift_in(x, c, j);
        lemma_group_digit(g.drop_last(), p);
    }
}

/// A partly filled group leaves the high bits of its byte zero.
proof fn lemma_group_high_bits(g: Seq<Nuc>)
    requires
        g.len() < 4,
    ensures
        pack_group(g) >> (2 * g.len()) as u8 == 0,
    decreases g.len(),
{
    if g.len() == 0 {
        assert(0u8 >> 0u8 == 0) by (bit_vector);
    } else {
        lemma_code_round_trip(g.last());
        lemma_group_high_bits(g.drop_last());
        lemma_shift_in(pack_group(g.drop_last()), code(g.last()), (g.len() - 1) as u8);
    }
}

/// Unpacking the packed bytes of a sequence gives the sequence back, and
/// the bytes are a valid packing.
pub proof fn lemma_unpack_packed(s: Seq<Nuc>)
    ensures
        packing_ok(packed(s), s.len()),
        unpack(packed(s), s.len()) == s,
{
    let d = packed(s);
    assert forall|i: int| 0 <= i < s.len() implies #[trigger] unpack(d, s.len())[i] == s[i] by {
        let k = (i / 4) as nat;
        let g = group(s, k);
        assert(g[i % 4] == s[i]);
        lemma_group_digit(g, i % 4);
    }
    assert(unpack(d, s.len()) =~= s);
    if s.len() % 4 != 0 {
        let k = ((s.len() + 3) / 4 - 1) as nat;
        assert(group_len(s.len(), k) == s.len() % 4);
        lemma_group_high_bits(group(s, k));
    }
}

/// The byte-at-a-time encoder shared by the constructors: a list of full
/// bytes and an accumulator for the group being filled.
struct Packer {
    bytes: Vec<u8>,
    acc: u8,
    count: usize,
    pushed: Ghost<Seq<Nuc>>,
}

impl Packer {
    spec fn inv(&self) -> bool {
        let s = self.pushed@;
        &&& self.count == s.len()
        &&& self.bytes@.len() == s.len() / 4
        &&& forall|k: int|
            0 <= k < s.len() / 4 ==> #[trigger] self.bytes@[k] == pack_group(
                s.subrange(4 * k, 4 * k + 4),
            )
        &&& self.acc == pack_group(s.subrange(s.len() - s.len() % 4, s.len() as int))
    }

    fn new() -> (r: Packer)
        ensures
            r.inv(),
            r.pushed@ == Seq::<Nuc>::empty(),
    {
        let r = Packer { bytes: Vec::new(), acc: 0, count: 0, pushed: Ghost(Seq::empty()) };
        assert(r.pushed@.subrange(0, 0) =~= Seq::<Nuc>::empty());
        r
    }

    fn push(&mut self, n: Nuc)
        requires
            old(self).inv(),
            old(self).count < usize::MAX,
        ensures
            final(self).inv(),
            final(self).pushed@ == old(self).pushed@.push(n),
    {
        let ghost s = self.pushed@;
        let ghost t = s.push(n);
        let ghost len = s.len() as int;
        let ghost start: int = len - len % 4;
        proof {
            lemma_code_round_trip(n);
        }
        assert(t.subrange(start, len + 1).drop_last() =~= s.subrange(start, len));
        assert(t.subrange(start, len + 1).last() == n);
        self.acc = (self.acc << 2u8) | PackedDna::enum_bits_convert(n);
        self.count = self.count + 1;
        self.pushed = Ghost(t);
        assert forall|k: int| 0 <= k < len / 4 implies #[trigger] t.subrange(4 * k, 4 * k + 4)
            =~= s.subrange(4 * k, 4 * k + 4) by {}
        if self.count % 4 == 0 {
            self.bytes.push(self.acc);
            self.acc = 0;
            assert(t.subrange(t.len() as int, t.len() as int) =~= Seq::<Nuc>::empty());
        }
    }

    fn finish(self) -> (r: PackedDna)
        requires
            self.inv(),
        ensures
            r@ == self.pushed@,
            r.bytes_view() == packed(self.pushed@),
    {
        let ghost s = self.pushed@;
        let mut bytes = self.bytes;
        if self.count % 4 != 0 {
            bytes.push(self.acc);
        }
        assert(bytes@ =~= packed(s)) by {
            assert forall|k: int| 0 <= k < bytes@.len() implies bytes@[k] == pack_group(
                group(s, k as nat),
            ) by {
                if k < s.len() / 4 {
                    assert(group(s, k as nat) =~= s.subrange(4 * k, 4 * k + 4));
                } else {
                    assert(group(s, k as nat) =~= s.subrange(s.len() - s.len() % 4, s.len() as int));
                }
            }
        }
        proof {
            lemma_unpack_packed(s);
        }
        PackedDna { data: bytes, data_len: self.count }
    }
}

/// How often `n` occurs in `s`.
pub open spec fn occurrences(s: Seq<Nuc>, n: Nuc) -> nat
    decreases s.len(),
{
    if s.len() == 0 {
        0
    } else {
        occurrences(s.drop_last(), n) + if s.last() == n {
            1nat
        } else {
            0nat
        }
    }
}

/// How often each nucleotide occurs in a sequence.
#[derive(Debug, Clone, Copy, PartialEq, Eq, Structural)]
pub struct NucCounts {
    pub a: usize,
    pub c: usize,
    pub g: usize,
    pub t: usize,
}

impl NucCounts {
    /// The count of one nucleotide.
    pub open spec fn count_spec(&self, n: Nuc) -> usize {
        match n {
            Nuc::A => self.a,
            Nuc::C => self.c,
            Nuc::G => self.g,
            Nuc::T => self.t,
        }
    }

    /// The count of one nucleotide.
    pub fn count(&self, n: Nuc) -> (r: usize)
        ensures
            r == self.count_spec(n),
    {
        match n {
            Nuc::A => self.a,
            Nuc::C => self.c,
            Nuc::G => self.g,
            Nuc::T => self.t,
        }
    }
}

/// A DNA sequence stored in two bits per nucleotide.
#[derive(Debug)]
pub struct PackedDna {
    data: Vec<u8>,
    data_len: usize,
}

impl View for PackedDna {
    type V = Seq<Nuc>;

    closed spec fn view(&self) -> Seq<Nuc> {
        unpack(self.data@, self.data_len as nat)
    }
}

impl PackedDna {
    #[verifier::type_invariant]
    closed spec fn well_formed(self) -> bool {
        packing_ok(self.data@, self.data_len as nat)
    }

    /// The stored bytes.
    pub closed spec fn bytes_view(&self) -> Seq<u8> {
        self.data@
    }

    /// Builds a sequence from its packed bytes and its length; the bytes must
    /// be a valid packing of that many nucleotides.
    pub fn new(data: Vec<u8>, data_len: usize) -> (r: PackedDna)
        requires
            packing_ok(data@, data_len as nat),
        ensures
            r@ == unpack(data@, data_len as nat),
            r.bytes_view() == data@,
    {
        PackedDna { data, data_len }
    }

    /// The number of nucleotides stored.
    pub fn length(&self) -> (r: usize)
        ensures
            r == self@.len(),
    {
        self.data_len
    }

    /// The packed bytes: one for each four nucleotides or fewer.
    pub fn bytes(&self) -> (r: &[u8])
        ensures
            r@ == self.bytes_view(),
            r@.len() == (self@.len() + 3) / 4,
    {
        proof {
            use_type_invariant(self);
        }
        self.data.as_slice()
    }

    /// The nucleotide at index `idx`, or `IndexOutOfBounds` where there is none.
    pub fn get(&self, idx: usize) -> (r: Result<Nuc, ErrorKind>)
        ensures
            idx < self@.len() ==> r == Ok::<Nuc, ErrorKind>(self@[idx as int]),
            idx >= self@.len() ==> r == Err::<Nuc, ErrorKind>(ErrorKind::IndexOutOfBounds),
    {
        if idx >= self.data_len {
            return Err(ErrorKind::IndexOutOfBounds);
        }
        proof {
            use_type_invariant(self);
        }
        let k = idx / 4;
        let rest = self.data_len - 4 * k;
        let n: usize = if rest >= 4 {
            4
        } else {
            rest
        };
        let sh: u8 = (2 * (n - 1 - idx % 4)) as u8;
        let byte = self.data[k];
        let bits = (byte >> sh) & 3u8;
        assert(bits < 4 && bits & 3u8 == bits) by (bit_vector)
            requires
                bits == (byte >> sh) & 3u8,
        ;
        Ok(PackedDna::bits_enum_convert(bits))
    }

    /// The two-bit code of a nucleotide letter, in either case, or 8 for a
    /// character that names no nucleotide.
    pub fn char_bits_convert(value: char) -> (r: u8)
        ensures
            r == match nuc_of_char(value) {
                Some(n) => code(n),
                None => 8u8,
            },
    {
        match value {
            'A' | 'a' => 0u8,
            'C' | 'c' => 1u8,
            'G' | 'g' => 2u8,
            'T' | 't' => 3u8,
            _ => 8u8,
        }
    }

    /// The two-bit code of a nucleotide.
    pub fn enum_bits_convert(value: Nuc) -> (r: u8)
        ensures
            r == code(value),
    {
        match value {
            Nuc::A => 0u8,
            Nuc::C => 1u8,
            Nuc::G => 2u8,
            Nuc::T => 3u8,
        }
    }

    /// The nucleotide of a two-bit code; any value above 3 reads as `T`.
    pub fn bits_enum_convert(value: u8) -> (r: Nuc)
        ensures
            r == nuc_of_code(value),
    {
        match value {
            0u8 => Nuc::A,
            1u8 => Nuc::C,
            2u8 => Nuc::G,
            _ => Nuc::T,
        }
    }

    /// How often each nucleotide occurs; an empty sequence has no summary.
    pub fn frequency_summary(&self) -> (r: Result<NucCounts, ErrorKind>)
        ensures
            self@.len() == 0 ==> r == Err::<NucCounts, ErrorKind>(ErrorKind::EmptySequence),
            self@.len() != 0 ==> r is Ok && forall|n: Nuc|
                #[trigger] r->Ok_0.count_spec(n) == occurrences(self@, n),
            self@.len() != 0 ==> r->Ok_0.a + r->Ok_0.c + r->Ok_0.g + r->Ok_0.t == self@.len(),
    {
        if self.data_len == 0 {
            return Err(ErrorKind::EmptySequence);
        }
        let mut counts = NucCounts { a: 0, c: 0, g: 0, t: 0 };
        assert(self@.take(0) =~= Seq::<Nuc>::empty());
        for i in 0..self.data_len
            invariant
                self.data_len == self@.len(),
                counts.a + counts.c + counts.g + counts.t == i,
                forall|n: Nuc| #[trigger]
                    counts.count_spec(n) == occurrences(self@.take(i as int), n),
        {
            assert(self@.take(i + 1).drop_last() =~= self@.take(i as int));
            let ghost before = counts;
            match self.get(i) {
                Ok(Nuc::A) => counts.a = counts.a + 1,
                Ok(Nuc::C) => counts.c = counts.c + 1,
                Ok(Nuc::G) => counts.g = counts.g + 1,
                Ok(Nuc::T) => counts.t = counts.t + 1,
                Err(_) => {},
            }
            assert forall|n: Nuc| #[trigger]
                counts.count_spec(n) == occurrences(self@.take(i + 1), n) by {
                assert(before.count_spec(n) == occurrences(self@.take(i as int), n));
                assert(self@.take(i + 1).last() == self@[i as int]);
            }
        }
        assert(self@.take(self@.len() as int) =~= self@);
        Ok(counts)
    }

    /// Packs the given nucleotides, in order.
    pub fn from_iter(items: Vec<Nuc>) -> (r: PackedDna)
        ensures
            r@ == items@,
            r.bytes_view() == packed(items@),
            r.bytes_view().len() == (items@.len() + 3) / 4,
    {
        let mut packer = Packer::new();
        assert(items@.take(0) =~= Seq::<Nuc>::empty());
        for i in 0..items.len()
            invariant
                packer.inv(),
                packer.pushed@ == items@.take(i as int),
        {
            packer.push(items[i]);
            assert(items@.take(i + 1) =~= items@.take(i as int).push(items@[i as int]));
        }
        assert(items@.take(items@.len() as int) =~= items@);
        packer.finish()
    }

    /// Packs the nucleotides that the letters of `s` name, in either case.
    /// Where some characters name none, fails with all of them, in order.
    pub fn from_text(s: &str) -> (r: Result<PackedDna, ParseNucError<Vec<char>>>)
        ensures
            invalid_chars(s@).len() == 0 ==> r is Ok && r->Ok_0@ == nucs_of(s@)
                && r->Ok_0@.len() == s@.len() && r->Ok_0.bytes_view() == packed(nucs_of(s@))
                && r->Ok_0.bytes_view().len() == (s@.len() + 3) / 4,
            invalid_chars(s@).len() != 0 ==> r is Err && r->Err_0.0@ == invalid_chars(s@),
    {
        let n = s.unicode_len();
        let mut packer = Packer::new();
        let mut bad: Vec<char> = Vec::new();
        let mut i: usize = 0;
        assert(s@.take(0) =~= Seq::<char>::empty());
        assert(nucs_of(s@.take(0)) =~= Seq::<Nuc>::empty());
        for c in iter: s.chars()
            invariant
                n == s@.len(),
                i == iter.index(),
                iter.seq() == s@,
                packer.inv(),
                packer.pushed@.len() <= i,
                bad@ == invalid_chars(s@.take(i as int)),
                bad@.len() == 0 ==> packer.pushed@ == nucs_of(s@.take(i as int)),
        {
            let ghost pre = s@.take(i as int);
            assert(s@.take(i + 1).drop_last() =~= pre);
            let bits = PackedDna::char_bits_convert(c);
            if bits > 3 {
                bad.push(c);
            } else if bad.len() == 0 {
                let nuc = PackedDna::bits_enum_convert(bits);
                proof {
                    lemma_code_round_trip(nuc_of_char(c).unwrap());
                }
                packer.push(nuc);
                assert(nucs_of(s@.take(i + 1)) =~= nucs_of(pre).push(nuc));
            }
            i = i + 1;
        }
        assert(s@.take(s@.len() as int) =~= s@);
        if bad.len() == 0 {
            Ok(packer.finish())
        } else {
            Err(ParseNucError(bad))
        }
    }
}

impl PartialEq for PackedDna {
    fn eq(&self, other: &PackedDna) -> (r: bool) {
        if self.data_len != other.data_len || self.data.len() != other.data.len() {
            return false;
        }
        let mut k: usize = 0;
        while k < self.data.len()
            invariant
                self.data@.len() == other.data@.len(),
                k <= self.data@.len(),
                forall|j: int| 0 <= j < k ==> self.data@[j] == other.data@[j],
            decreases self.data@.len() - k,
        {
            if self.data[k] != other.data[k] {
                return false;
            }
            k = k + 1;
        }
        assert(self.data@ =~= other.data@);
        true
    }
}

impl vstd::std_specs::cmp::PartialEqSpecImpl for PackedDna {
    open spec fn obeys_eq_spec() -> bool {
        true
    }

    open spec fn eq_spec(&self, other: &PackedDna) -> bool {
        self@.len() == other@.len() && self.bytes_view() == other.bytes_view()
    }
}

impl Eq for PackedDna {

}

impl std::str::FromStr for PackedDna {
    type Err = ParseNucError<Vec<char>>;

    fn from_str(s: &str) -> (r: Result<PackedDna, ParseNucError<Vec<char>>>)
        ensures
            invalid_chars(s@).len() == 0 ==> r is Ok && r->Ok_0@ == nucs_of(s@)
                && r->Ok_0@.len() == s@.len() && r->Ok_0.bytes_view() == packed(nucs_of(s@))
                && r->Ok_0.bytes_view().len() == (s@.len() + 3) / 4,
            invalid_chars(s@).len() != 0 ==> r is Err && r->Err_0.0@ == invalid_chars(s@),
    {
        PackedDna::from_text(s)
    }
}

} // verus!
