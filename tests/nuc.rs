use dna::{Nuc, ParseNucError};
use std::convert::TryFrom;
use std::str::FromStr;

#[test]
fn tryfrom_char() {
    assert_eq!(Nuc::try_from('C').unwrap(), Nuc::C);
    assert_eq!(Nuc::try_from('A').unwrap(), Nuc::A);
    assert_eq!(Nuc::try_from('G').unwrap(), Nuc::G);
    assert_eq!(Nuc::try_from('T').unwrap(), Nuc::T);
}

#[test]
fn fromstr() {
    assert_eq!(Nuc::from_str("C").unwrap(), Nuc::C);
    assert_eq!(Nuc::from_str("A").unwrap(), Nuc::A);
    assert_eq!(Nuc::from_str("G").unwrap(), Nuc::G);
    assert_eq!(Nuc::from_str("T").unwrap(), Nuc::T);
}

#[test]
fn char_parsing_ignores_case_and_rejects_others() {
    assert_eq!(Nuc::try_from('a'), Ok(Nuc::A));
    assert_eq!(Nuc::try_from('t'), Ok(Nuc::T));
    assert_eq!(Nuc::try_from('X'), Err(ParseNucError('X')));
    assert_eq!(Nuc::parse_char('u'), Err(ParseNucError('u')));
    assert_eq!(Nuc::parse_char('g'), Ok(Nuc::G));
}

#[test]
fn str_parsing_needs_exactly_one_letter() {
    assert_eq!(Nuc::from_str("c"), Ok(Nuc::C));
    assert_eq!(Nuc::from_str(""), Err(ParseNucError(String::new())));
    assert_eq!(Nuc::from_str("AC"), Err(ParseNucError("AC".to_string())));
    assert_eq!(Nuc::parse_str("x"), Err(ParseNucError("x".to_string())));
    assert_eq!(Nuc::parse_str("é"), Err(ParseNucError("é".to_string())));
}
