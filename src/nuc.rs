use vstd::prelude::*;
use vstd::string::StrSliceExecFns;

verus! {

/// A nucleotide.
#[derive(Debug, Clone, Copy, PartialEq, Eq, Hash, Structural)]
pub enum Nuc {
    /// Adenine
    A,
    /// Cytosine
    C,
    /// Guanine
    G,
    /// Thymine
    T,
}

/// An error that can occur when parsing nucleotides: it holds what could not be read.
#[derive(Debug, PartialEq, Eq)]
pub struct ParseNucError<T>(pub T);

/// The nucleotide that a character names, letters in either case.
pub open spec fn nuc_of_char(c: char) -> Option<Nuc> {
    if c == 'A' || c == 'a' {
        Some(Nuc::A)
    } else if c == 'C' || c == 'c' {
        Some(Nuc::C)
    } else if c == 'G' || c == 'g' {
        Some(Nuc::G)
    } else if c == 'T' || c == 't' {
        Some(Nuc::T)
    } else {
        None
    }
}

/// The characters of `s` that name no nucleotide, in order.
pub open spec fn invalid_chars(s: Seq<char>) -> Seq<char>
    decreases s.len(),
{
    if s.len() == 0 {
        Seq::empty()
    } else if nuc_of_char(s.last()) is Some {
        invalid_chars(s.drop_last())
    } else {
        invalid_chars(s.drop_last()).push(s.last())
    }
}

/// The nucleotides that the characters of `s` name, where each names one.
pub open spec fn nucs_of(s: Seq<char>) -> Seq<Nuc> {
    s.map_values(|c: char| nuc_of_char(c).unwrap())
}

/// The upper-case letter of a nucleotide.
pub open spec fn letter(n: Nuc) -> char {
    match n {
        Nuc::A => 'A',
        Nuc::C => 'C',
        Nuc::G => 'G',
        Nuc::T => 'T',
    }
}

/// A character turned to upper case, where it is an ASCII letter.
pub open spec fn upper(c: char) -> char {
    if 'a' <= c <= 'z' {
        ((c as u32) - 32) as char
    } else {
        c
    }
}

/// The two-bit code of a nucleotide.
pub open spec fn code(n: Nuc) -> u8 {
    match n {
        Nuc::A => 0,
        Nuc::C => 1,
        Nuc::G => 2,
        Nuc::T => 3,
    }
}

/// The nucleotide of a two-bit code; any larger value reads as `T`.
pub open spec fn nuc_of_code(v: u8) -> Nuc {
    if v == 0 {
        Nuc::A
    } else if v == 1 {
        Nuc::C
    } else if v == 2 {
        Nuc::G
    } else {
        Nuc::T
    }
}

/// The nucleotide that the two low bits of a byte encode.
pub open spec fn nuc_of_bits(b: u8) -> Nuc {
    nuc_of_code(b & 3u8)
}

/// What parsing one character gives.
pub open spec fn parse_char_spec(c: char) -> Result<Nuc, ParseNucError<char>> {
    match nuc_of_char(c) {
        Some(n) => Ok(n),
        None => Err(ParseNucError(c)),
    }
}

impl Nuc {
    /// Reads a nucleotide from its letter, in either case.
    pub fn parse_char(c: char) -> (r: Result<Nuc, ParseNucError<char>>)
        ensures
            r == parse_char_spec(c),
    {
        match c {
            'A' | 'a' => Ok(Nuc::A),
            'C' | 'c' => Ok(Nuc::C),
            'G' | 'g' => Ok(Nuc::G),
            'T' | 't' => Ok(Nuc::T),
            _ => Err(ParseNucError(c)),
        }
    }

    /// Reads a nucleotide from a string of exactly one letter, in either case.
    /// Any other string is returned in the error.
    pub fn parse_str(s: &str) -> (r: Result<Nuc, ParseNucError<String>>)
        ensures
            s@.len() == 1 && nuc_of_char(s@[0]) is Some ==> r == Ok::<Nuc, ParseNucError<String>>(
                nuc_of_char(s@[0]).unwrap(),
            ),
            !(s@.len() == 1 && nuc_of_char(s@[0]) is Some) ==> r is Err && r->Err_0.0@ == s@,
    {
        if s.unicode_len() == 1 {
            if let Ok(n) = Nuc::parse_char(s.get_char(0)) {
                return Ok(n);
            }
        }
        Err(ParseNucError(s.to_owned()))
    }
}

impl TryFrom<char> for Nuc {
    type Error = ParseNucError<char>;

    fn try_from(value: char) -> (r: Result<Nuc, ParseNucError<char>>) {
        Nuc::parse_char(value)
    }
}

impl vstd::std_specs::convert::TryFromSpecImpl<char> for Nuc {
    open spec fn obeys_try_from_spec() -> bool {
        true
    }

    open spec fn try_from_spec(v: char) -> Result<Nuc, ParseNucError<char>> {
        parse_char_spec(v)
    }
}

impl std::str::FromStr for Nuc {
    type Err = ParseNucError<String>;

    fn from_str(s: &str) -> (r: Result<Nuc, ParseNucError<String>>)
        ensures
            s@.len() == 1 && nuc_of_char(s@[0]) is Some ==> r == Ok::<Nuc, ParseNucError<String>>(
                nuc_of_char(s@[0]).unwrap(),
            ),
            !(s@.len() == 1 && nuc_of_char(s@[0]) is Some) ==> r is Err && r->Err_0.0@ == s@,
    {
        Nuc::parse_str(s)
    }
}

/// Every nucleotide's code is two bits wide and decodes back to it.
pub proof fn lemma_code_round_trip(n: Nuc)
    ensures
        code(n) < 4,
        nuc_of_bits(code(n)) == n,
{
    assert(0u8 & 3u8 == 0u8) by (bit_vector);
    assert(1u8 & 3u8 == 1u8) by (bit_vector);
    assert(2u8 & 3u8 == 2u8) by (bit_vector);
    assert(3u8 & 3u8 == 3u8) by (bit_vector);
}

/// A text has no invalid characters exactly when each of its characters names
/// a nucleotide.
pub proof fn lemma_invalid_chars_empty(s: Seq<char>)
    ensures
        invalid_chars(s).len() == 0 <==> forall|i: int|
            0 <= i < s.len() ==> #[trigger] nuc_of_char(s[i]) is Some,
    decreases s.len(),
{
    if s.len() > 0 {
        let t = s.drop_last();
        lemma_invalid_chars_empty(t);
        assert forall|i: int| 0 <= i < t.len() implies #[trigger] t[i] == s[i] by {}
        if nuc_of_char(s.last()) is Some {
            assert((forall|i: int| 0 <= i < t.len() ==> #[trigger] nuc_of_char(t[i]) is Some)
                ==> (forall|i: int| 0 <= i < s.len() ==> #[trigger] nuc_of_char(s[i]) is Some))
                by {
                if forall|i: int| 0 <= i < t.len() ==> #[trigger] nuc_of_char(t[i]) is Some {
                    assert forall|i: int| 0 <= i < s.len() implies #[trigger] nuc_of_char(
                        s[i],
                    ) is Some by {
                        if i < t.len() {
                            assert(nuc_of_char(t[i]) is Some);
                        }
                    }
                }
            }
        } else {
            assert(nuc_of_char(s[s.len() - 1]) is None);
        }
    }
}

/// A character names the same nucleotide, or none, in either case.
proof fn lemma_char_case(c: char, d: char)
    requires
        upper(c) == upper(d),
    ensures
        nuc_of_char(c) == nuc_of_char(d),
{
}

/// Reading a text of nucleotide letters, in either case, succeeds, and
/// writing each nucleotide back as its letter gives the text in upper case.
pub proof fn lemma_text_round_trip(s: Seq<char>)
    requires
        forall|i: int| 0 <= i < s.len() ==> #[trigger] nuc_of_char(s[i]) is Some,
    ensures
        invalid_chars(s).len() == 0,
        nucs_of(s).len() == s.len(),
        forall|i: int| 0 <= i < s.len() ==> #[trigger] letter(nucs_of(s)[i]) == upper(s[i]),
{
    lemma_invalid_chars_empty(s);
    assert forall|i: int| 0 <= i < s.len() implies #[trigger] letter(nucs_of(s)[i]) == upper(
        s[i],
    ) by {
        assert(nuc_of_char(s[i]) is Some);
    }
}

/// Texts that differ only in the case of letters are read alike: both are
/// valid or neither is, and they name the same nucleotides.
pub proof fn lemma_case_insensitive(s: Seq<char>, t: Seq<char>)
    requires
        s.len() == t.len(),
        forall|i: int| 0 <= i < s.len() ==> #[trigger] upper(s[i]) == upper(t[i]),
    ensures
        invalid_chars(s).len() == 0 <==> invalid_chars(t).len() == 0,
        nucs_of(s) == nucs_of(t),
{
    assert forall|i: int| 0 <= i < s.len() implies #[trigger] nuc_of_char(s[i]) == nuc_of_char(
        t[i],
    ) by {
        assert(upper(s[i]) == upper(t[i]));
        lemma_char_case(s[i], t[i]);
    }
    lemma_invalid_chars_empty(s);
    lemma_invalid_chars_empty(t);
    if invalid_chars(s).len() == 0 {
        assert forall|i: int| 0 <= i < t.len() implies #[trigger] nuc_of_char(t[i]) is Some by {
            assert(nuc_of_char(s[i]) is Some);
        }
    }
    if invalid_chars(t).len() == 0 {
        assert forall|i: int| 0 <= i < s.len() implies #[trigger] nuc_of_char(s[i]) is Some by {
            assert(nuc_of_char(t[i]) is Some);
        }
    }
    assert(nucs_of(s) =~= nucs_of(t));
}

} // verus!
