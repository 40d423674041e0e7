use jutge::problem_id_types::{Localized, Unlocalized};
use jutge::{Error, ProblemId, ProblemLanguage, ProblemType};

const TYPES: [ProblemType; 3] = [ProblemType::Game, ProblemType::Public, ProblemType::Private];
const LANGUAGES: [ProblemLanguage; 5] = [
    ProblemLanguage::Catalan,
    ProblemLanguage::English,
    ProblemLanguage::Spanish,
    ProblemLanguage::French,
    ProblemLanguage::German,
];

fn is_invalid_id<T>(r: &Result<T, Error>) -> bool {
    matches!(r, Err(Error::InvalidProblemId(_)))
}

#[test]
fn public_42_formats_and_decodes() {
    let id = ProblemId::new_unlocalized(ProblemType::Public, 42).unwrap();
    assert_eq!(id.to_string(), "P000042");
    assert_eq!(id.problem_type(), ProblemType::Public);
    assert_eq!(id.problem_id(), 42);
}

#[test]
fn game_zero_formats_with_six_zeros() {
    let id = ProblemId::new_unlocalized(ProblemType::Game, 0).unwrap();
    assert_eq!(id.to_string(), "G000000");
    assert_eq!(id.problem_id(), 0);
}

#[test]
fn localized_private_7_catalan() {
    let id =
        ProblemId::new_localized(ProblemType::Private, 7, ProblemLanguage::Catalan).unwrap();
    assert_eq!(id.to_string(), "X000007_ca");
    assert!(matches!(id.language(), ProblemLanguage::Catalan));
    assert_eq!(id.problem_type(), ProblemType::Private);
    assert_eq!(id.problem_id(), 7);
}

#[test]
fn unlocalized_parser_rejects_localized_text() {
    let r = ProblemId::<Unlocalized>::parse("X000007_ca");
    assert!(is_invalid_id(&r));
    let r: Result<ProblemId<Unlocalized>, Error> = "P000042_en".parse();
    assert!(is_invalid_id(&r));
}

#[test]
fn largest_numeric_id_is_accepted() {
    for pt in TYPES {
        let id = ProblemId::new_unlocalized(pt, 999_999).unwrap();
        assert_eq!(id.to_string(), format!("{}999999", pt.letter()));
        assert_eq!(id.problem_id(), 999_999);
        let id = ProblemId::new_localized(pt, 999_999, ProblemLanguage::German).unwrap();
        assert_eq!(id.to_string(), format!("{}999999_de", pt.letter()));
    }
}

#[test]
fn one_million_is_rejected() {
    for pt in TYPES {
        assert!(is_invalid_id(&ProblemId::new_unlocalized(pt, 1_000_000)));
        assert!(is_invalid_id(&ProblemId::new_unlocalized(pt, u32::MAX)));
        assert!(is_invalid_id(&ProblemId::new_localized(
            pt,
            1_000_000,
            ProblemLanguage::English
        )));
    }
}

#[test]
fn wrong_lengths_are_rejected() {
    assert!(is_invalid_id(&ProblemId::<Unlocalized>::parse("")));
    assert!(is_invalid_id(&ProblemId::<Unlocalized>::parse("P42")));
    assert!(is_invalid_id(&ProblemId::<Unlocalized>::parse("P00004200")));
    assert!(is_invalid_id(&ProblemId::<Localized>::parse("")));
    assert!(is_invalid_id(&ProblemId::<Localized>::parse("P000042")));
    assert!(is_invalid_id(&ProblemId::<Localized>::parse("P000042_enx")));
    let id = ProblemId::<Unlocalized>::parse("P000042").unwrap();
    assert_eq!(id.problem_id(), 42);
    let id = ProblemId::<Localized>::parse("P000042_en").unwrap();
    assert_eq!(id.to_string(), "P000042_en");
}

#[test]
fn localized_parser_checks_separator() {
    assert!(is_invalid_id(&ProblemId::<Localized>::parse("P000042Xen")));
    let id = ProblemId::<Localized>::parse("P000042_en").unwrap();
    assert!(matches!(id.language(), ProblemLanguage::English));
    assert_eq!(id.problem_type(), ProblemType::Public);
    assert_eq!(id.problem_id(), 42);
}

#[test]
fn invalid_letter_is_not_a_problem_type() {
    assert_eq!(ProblemId::<Unlocalized>::parse("Z000042"), Err(Error::NotAProblemType));
    assert_eq!(ProblemId::<Localized>::parse("Z000042_en"), Err(Error::NotAProblemType));
    assert_eq!(ProblemId::<Unlocalized>::parse("p000042"), Err(Error::NotAProblemType));
    // Seven bytes, of which the first character takes two.
    assert_eq!(ProblemId::<Unlocalized>::parse("\u{e9}00004"), Err(Error::NotAProblemType));
}

#[test]
fn invalid_language_is_not_a_problem_language() {
    assert_eq!(ProblemId::<Localized>::parse("P000042_xx"), Err(Error::NotAProblemLanguage));
    assert_eq!(ProblemId::<Localized>::parse("P000042_EN"), Err(Error::NotAProblemLanguage));
}

#[test]
fn localized_checks_come_in_order() {
    // Separator before type letter, type letter before digits, digits
    // before language.
    assert!(is_invalid_id(&ProblemId::<Localized>::parse("Z000042-xx")));
    assert_eq!(ProblemId::<Localized>::parse("Z00a042_xx"), Err(Error::NotAProblemType));
    assert!(is_invalid_id(&ProblemId::<Localized>::parse("P00a042_xx")));
}

#[test]
fn non_digits_are_rejected() {
    assert!(is_invalid_id(&ProblemId::<Unlocalized>::parse("P00a042")));
    assert!(is_invalid_id(&ProblemId::<Unlocalized>::parse("P-00042")));
    assert!(is_invalid_id(&ProblemId::<Unlocalized>::parse("P 00042")));
    assert!(is_invalid_id(&ProblemId::<Unlocalized>::parse("P+")));
    assert!(is_invalid_id(&ProblemId::<Unlocalized>::parse("P++0042")));
}

#[test]
fn leading_plus_reads_as_unsigned_integer() {
    let id = ProblemId::<Unlocalized>::parse("P+00042").unwrap();
    assert_eq!(id.to_string(), "P000042");
    assert_eq!(id.problem_id(), 42);
}

#[test]
fn unlocalized_round_trip() {
    for pt in TYPES {
        for n in [0u32, 1, 9, 10, 42, 12_345, 100_000, 999_998, 999_999] {
            let id = ProblemId::new_unlocalized(pt, n).unwrap();
            let text = id.to_string();
            assert_eq!(text.len(), 7);
            let back = ProblemId::<Unlocalized>::parse(&text).unwrap();
            assert_eq!(back, id);
            assert_eq!(back.problem_type(), pt);
            assert_eq!(back.problem_id(), n);
            let parsed: ProblemId<Unlocalized> = text.parse().unwrap();
            assert_eq!(parsed, id);
        }
    }
}

#[test]
fn localized_round_trip() {
    for pt in TYPES {
        for lang in LANGUAGES {
            for n in [0u32, 7, 42, 654_321, 999_999] {
                let id = ProblemId::new_localized(pt, n, lang).unwrap();
                let text = id.to_string();
                assert_eq!(text.len(), 10);
                let back = ProblemId::<Localized>::parse(&text).unwrap();
                assert_eq!(back, id);
                assert_eq!(back.problem_type(), pt);
                assert_eq!(back.problem_id(), n);
                assert_eq!(back.language().code(), lang.code());
            }
        }
    }
}

#[test]
fn same_type_orders_by_numeric_id() {
    let a = ProblemId::new_unlocalized(ProblemType::Public, 9).unwrap();
    let b = ProblemId::new_unlocalized(ProblemType::Public, 10).unwrap();
    let c = ProblemId::new_unlocalized(ProblemType::Public, 999_999).unwrap();
    assert!(a < b);
    assert!(b < c);
    assert!(c > a);
    assert_eq!(a.cmp(&b), std::cmp::Ordering::Less);
    assert_eq!(a.partial_cmp(&a.clone()), Some(std::cmp::Ordering::Equal));
}

#[test]
fn different_types_order_by_letter() {
    let g = ProblemId::new_unlocalized(ProblemType::Game, 999_999).unwrap();
    let p = ProblemId::new_unlocalized(ProblemType::Public, 0).unwrap();
    let x = ProblemId::new_unlocalized(ProblemType::Private, 0).unwrap();
    assert!(g < p);
    assert!(p < x);
    assert_eq!(g.cmp(&p), std::cmp::Ordering::Less);
    let mut ids = vec![x, g, p];
    ids.sort();
    assert_eq!(ids, vec![g, p, x]);
}

#[test]
fn localized_ids_order_by_text() {
    let a = ProblemId::new_localized(ProblemType::Public, 42, ProblemLanguage::English).unwrap();
    let b = ProblemId::new_localized(ProblemType::Public, 42, ProblemLanguage::Spanish).unwrap();
    let c = ProblemId::new_localized(ProblemType::Public, 43, ProblemLanguage::Catalan).unwrap();
    assert!(a < b);
    assert!(b < c);
    assert_eq!(a.cmp(&b), std::cmp::Ordering::Less);
}

#[test]
fn problem_type_letters() {
    assert_eq!(ProblemType::Game.letter(), 'G');
    assert_eq!(ProblemType::Public.letter(), 'P');
    assert_eq!(ProblemType::Private.letter(), 'X');
    assert_eq!(char::from(ProblemType::Private), 'X');
    for c in ['G', 'P', 'X'] {
        assert!(ProblemType::is_valid_letter(c));
        assert_eq!(ProblemType::from_letter(c).unwrap().letter(), c);
        assert_eq!(ProblemType::try_from(c).unwrap().letter(), c);
    }
    for c in ['g', 'A', 'Z', ' ', '\u{e9}'] {
        assert!(!ProblemType::is_valid_letter(c));
        assert_eq!(ProblemType::from_letter(c), Err(Error::NotAProblemType));
        assert_eq!(ProblemType::try_from(c), Err(Error::NotAProblemType));
    }
}

#[test]
fn language_codes() {
    assert_eq!(ProblemLanguage::Catalan.code(), *b"ca");
    assert_eq!(ProblemLanguage::English.code(), *b"en");
    assert_eq!(ProblemLanguage::Spanish.code(), *b"es");
    assert_eq!(ProblemLanguage::French.code(), *b"fr");
    assert_eq!(ProblemLanguage::German.code(), *b"de");
    for lang in LANGUAGES {
        assert_eq!(ProblemLanguage::from_code(lang.code()).unwrap().code(), lang.code());
        assert_eq!(ProblemLanguage::from_bytes(&lang.code()).unwrap().code(), lang.code());
        assert_eq!(ProblemLanguage::try_from(lang.code()).unwrap().code(), lang.code());
    }
    let r: Result<ProblemLanguage, Error> = ProblemLanguage::try_from(&b"fr"[..]);
    assert!(matches!(r, Ok(ProblemLanguage::French)));
}

#[test]
fn unknown_language_codes_fail() {
    assert!(matches!(ProblemLanguage::from_code(*b"xx"), Err(Error::NotAProblemLanguage)));
    assert!(matches!(ProblemLanguage::from_code(*b"En"), Err(Error::NotAProblemLanguage)));
    assert!(matches!(ProblemLanguage::from_bytes(b""), Err(Error::NotAProblemLanguage)));
    assert!(matches!(ProblemLanguage::from_bytes(b"e"), Err(Error::NotAProblemLanguage)));
    assert!(matches!(ProblemLanguage::from_bytes(b"enn"), Err(Error::NotAProblemLanguage)));
    assert!(matches!(
        ProblemLanguage::try_from(&b"ca_"[..]),
        Err(Error::NotAProblemLanguage)
    ));
}
