use dna::{ErrorKind, Nuc, PackedDna, ParseNucError};
use std::str::FromStr;

#[test]
fn test_dna_from_iter() {
    // Normal input
    assert_eq!(
        PackedDna::from_iter(vec![Nuc::A, Nuc::C, Nuc::G, Nuc::T, Nuc::T, Nuc::T, Nuc::G]),
        PackedDna::new(vec![0b00011011, 0b111110], 7)
    );
    // Long input
    assert_eq!(
        PackedDna::from_iter(vec![
            Nuc::A, Nuc::G, Nuc::C, Nuc::T, Nuc::G, Nuc::C, Nuc::T, Nuc::A, Nuc::G, Nuc::C,
            Nuc::T, Nuc::G, Nuc::A, Nuc::T, Nuc::C, Nuc::G, Nuc::A, Nuc::C
        ]),
        PackedDna::new(vec![0b00100111, 0b10011100, 0b10011110, 0b00110110, 0b0001], 18)
    );
    // Empty input
    assert_eq!(PackedDna::from_iter(vec![]), PackedDna::new(vec![], 0));
}

#[test]
fn test_dna_from_str() {
    // Normal input
    let res = PackedDna::from_str("ACGTTT").unwrap();
    assert_eq!(res, PackedDna::new(vec![0b00011011, 0b1111], 6));
    // Long input
    let res2 = PackedDna::from_str(
        "AGCTGCTAGCTGATCGAAGTCAAAAAgggggtgAattttttttttttttttttttttgatgatcgtgacgtagtcgtacttagcta",
    )
    .unwrap();
    assert_eq!(
        res2,
        PackedDna::new(
            vec![
                0b00100111, 0b10011100, 0b10011110, 0b00110110, 0b00001011, 0b01000000,
                0b00001010, 0b10101011, 0b10000011, 0b11111111, 0b11111111, 0b11111111,
                0b11111111, 0b11111111, 0b11100011, 0b10001101, 0b10111000, 0b01101100,
                0b10110110, 0b11000111, 0b11001001, 0b1100
            ],
            86
        )
    );
    // Empty input
    let res3 = PackedDna::from_str("").unwrap();
    assert_eq!(res3, PackedDna::new(vec![], 0));
}

#[test]
fn empty_text_gives_empty_sequence_without_summary() {
    let p = PackedDna::from_text("").unwrap();
    assert_eq!(p.length(), 0);
    assert_eq!(p.bytes().len(), 0);
    assert_eq!(p.frequency_summary(), Err(ErrorKind::EmptySequence));
    assert_eq!(p.get(0), Err(ErrorKind::IndexOutOfBounds));
}

#[test]
fn invalid_symbol_is_reported() {
    assert_eq!(PackedDna::from_text("ACGX"), Err(ParseNucError(vec!['X'])));
}

#[test]
fn every_invalid_symbol_is_reported_in_order() {
    assert_eq!(
        PackedDna::from_text("aXcgNtz-é"),
        Err(ParseNucError(vec!['X', 'N', 'z', '-', 'é']))
    );
    assert_eq!(PackedDna::from_str("U"), Err(ParseNucError(vec!['U'])));
}

#[test]
fn get_checks_bounds() {
    let p = PackedDna::from_text("ACGTTTG").unwrap();
    assert_eq!(p.get(p.length() - 1), Ok(Nuc::G));
    assert_eq!(p.get(p.length()), Err(ErrorKind::IndexOutOfBounds));
    assert_eq!(p.get(p.length() + 1), Err(ErrorKind::IndexOutOfBounds));
    assert_eq!(p.get(usize::MAX), Err(ErrorKind::IndexOutOfBounds));
}

#[test]
fn get_reads_back_each_position() {
    let text = "GATTACAcgt";
    let p = PackedDna::from_text(text).unwrap();
    let expected = [
        Nuc::G, Nuc::A, Nuc::T, Nuc::T, Nuc::A, Nuc::C, Nuc::A, Nuc::C, Nuc::G, Nuc::T,
    ];
    assert_eq!(p.length(), expected.len());
    for (i, n) in expected.iter().enumerate() {
        assert_eq!(p.get(i), Ok(*n));
    }
}

#[test]
fn text_round_trip_gives_upper_case() {
    let text = "acGTtgCAacg";
    let p = PackedDna::from_text(text).unwrap();
    let mut back = String::new();
    for i in 0..p.length() {
        let c = match p.get(i).unwrap() {
            Nuc::A => 'A',
            Nuc::C => 'C',
            Nuc::G => 'G',
            Nuc::T => 'T',
        };
        back.push(c);
    }
    assert_eq!(back, text.to_ascii_uppercase());
}

#[test]
fn lengths_and_byte_counts() {
    for n in 0..13usize {
        let text: String = "ACGT".chars().cycle().take(n).collect();
        let p = PackedDna::from_text(&text).unwrap();
        assert_eq!(p.length(), n);
        assert_eq!(p.bytes().len(), (n + 3) / 4);
        let q = PackedDna::from_iter(vec![Nuc::T; n]);
        assert_eq!(q.length(), n);
        assert_eq!(q.bytes().len(), (n + 3) / 4);
    }
}

#[test]
fn summary_of_text() {
    let p = PackedDna::from_text("ACGTTT").unwrap();
    assert_eq!(p.length(), 6);
    let f = p.frequency_summary().unwrap();
    assert_eq!((f.a, f.c, f.g, f.t), (1, 1, 1, 3));
    assert_eq!(f.count(Nuc::T), 3);
    assert_eq!(f.count(Nuc::A), 1);
}

#[test]
fn summary_of_symbols() {
    let p = PackedDna::from_iter(vec![Nuc::A, Nuc::C, Nuc::G, Nuc::T, Nuc::T, Nuc::T, Nuc::G]);
    assert_eq!(p.length(), 7);
    let f = p.frequency_summary().unwrap();
    assert_eq!((f.a, f.c, f.g, f.t), (1, 1, 2, 3));
    assert_eq!(p.bytes().len(), 2);
}

#[test]
fn summary_counts_absent_symbols_as_zero() {
    let p = PackedDna::from_text("ggggg").unwrap();
    let f = p.frequency_summary().unwrap();
    assert_eq!((f.a, f.c, f.g, f.t), (0, 0, 5, 0));
    assert_eq!(f.count(Nuc::C), 0);
}

#[test]
fn lower_case_reads_like_upper_case() {
    let lower = PackedDna::from_text("acgttt").unwrap();
    let upper = PackedDna::from_text("ACGTTT").unwrap();
    assert_eq!(lower, upper);
    assert_eq!(lower.length(), upper.length());
    for i in 0..upper.length() {
        assert_eq!(lower.get(i), upper.get(i));
    }
}

#[test]
fn text_and_symbols_pack_alike() {
    let a = PackedDna::from_text("TGCAagt").unwrap();
    let b = PackedDna::from_iter(vec![Nuc::T, Nuc::G, Nuc::C, Nuc::A, Nuc::A, Nuc::G, Nuc::T]);
    assert_eq!(a, b);
    assert_eq!(a.bytes(), &[0b11100100, 0b001011][..]);
}

#[test]
fn raw_bytes_decode() {
    let p = PackedDna::new(vec![0b00011011, 0b10], 5);
    let got: Vec<Nuc> = (0..p.length()).map(|i| p.get(i).unwrap()).collect();
    assert_eq!(got, vec![Nuc::A, Nuc::C, Nuc::G, Nuc::T, Nuc::G]);
    assert_ne!(p, PackedDna::new(vec![0b00011011, 0b10], 6));
}

#[test]
fn bit_codes_round_trip() {
    for n in [Nuc::A, Nuc::C, Nuc::G, Nuc::T] {
        assert_eq!(PackedDna::bits_enum_convert(PackedDna::enum_bits_convert(n)), n);
    }
    assert_eq!(PackedDna::enum_bits_convert(Nuc::A), 0);
    assert_eq!(PackedDna::enum_bits_convert(Nuc::G), 2);
    assert_eq!(PackedDna::enum_bits_convert(Nuc::T), 3);
    assert_eq!(PackedDna::bits_enum_convert(1), Nuc::C);
    assert_eq!(PackedDna::bits_enum_convert(7), Nuc::T);
}

#[test]
fn char_codes() {
    assert_eq!(PackedDna::char_bits_convert('A'), 0);
    assert_eq!(PackedDna::char_bits_convert('c'), 1);
    assert_eq!(PackedDna::char_bits_convert('g'), 2);
    assert_eq!(PackedDna::char_bits_convert('T'), 3);
    assert_eq!(PackedDna::char_bits_convert('x'), 8);
    assert_eq!(PackedDna::char_bits_convert('0'), 8);
}

#[test]
fn from_str_reports_invalid_and_ignores_case() {
    assert_eq!(PackedDna::from_str("ACGX"), Err(ParseNucError(vec!['X'])));
    assert_eq!(
        PackedDna::from_str("acgttt").unwrap(),
        PackedDna::from_str("ACGTTT").unwrap()
    );
    assert_eq!(PackedDna::from_str("ACGT").unwrap().bytes(), &[0b00011011][..]);
}
