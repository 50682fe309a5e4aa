use durak_core::vowel_harmony::is_fixed_morpheme;
use durak_core::{check_harmony, check_vowel_harmony, get_last_vowel_class, get_vowel_class, VowelClass};

#[test]
fn test_vowel_classification() {
    // Front unrounded
    assert_eq!(get_vowel_class('e'), Some(VowelClass::FrontUnrounded));
    assert_eq!(get_vowel_class('i'), Some(VowelClass::FrontUnrounded));
    assert_eq!(get_vowel_class('E'), Some(VowelClass::FrontUnrounded));
    assert_eq!(get_vowel_class('İ'), Some(VowelClass::FrontUnrounded));

    // Front rounded
    assert_eq!(get_vowel_class('ö'), Some(VowelClass::FrontRounded));
    assert_eq!(get_vowel_class('ü'), Some(VowelClass::FrontRounded));

    // Back unrounded
    assert_eq!(get_vowel_class('a'), Some(VowelClass::BackUnrounded));
    assert_eq!(get_vowel_class('ı'), Some(VowelClass::BackUnrounded));

    // Back rounded
    assert_eq!(get_vowel_class('o'), Some(VowelClass::BackRounded));
    assert_eq!(get_vowel_class('u'), Some(VowelClass::BackRounded));

    // Non-vowels
    assert_eq!(get_vowel_class('k'), None);
    assert_eq!(get_vowel_class('t'), None);
    assert_eq!(get_vowel_class('m'), None);
}

#[test]
fn test_last_vowel_extraction() {
    assert_eq!(get_last_vowel_class("kitap"), Some(VowelClass::BackUnrounded));
    assert_eq!(get_last_vowel_class("ev"), Some(VowelClass::FrontUnrounded));
    assert_eq!(get_last_vowel_class("göz"), Some(VowelClass::FrontRounded));
    assert_eq!(get_last_vowel_class("yol"), Some(VowelClass::BackRounded));
    assert_eq!(get_last_vowel_class("xyz"), None);
}

#[test]
fn test_harmony_valid_cases() {
    assert!(check_vowel_harmony("kitap", "lar"));
    assert!(check_vowel_harmony("adam", "dan"));
    assert!(check_vowel_harmony("yol", "dan"));

    assert!(check_vowel_harmony("ev", "ler"));
    assert!(check_vowel_harmony("şehir", "den"));
    assert!(check_vowel_harmony("göz", "ler"));
}

#[test]
fn test_harmony_invalid_cases() {
    assert!(!check_vowel_harmony("kitap", "ler"));
    assert!(!check_vowel_harmony("adam", "den"));

    assert!(!check_vowel_harmony("ev", "lar"));
    assert!(!check_vowel_harmony("şehir", "dan"));
}

#[test]
fn test_harmony_with_multi_vowel_suffixes() {
    assert!(check_vowel_harmony("kitap", "ların"));
    assert!(check_vowel_harmony("ev", "lerin"));
    assert!(!check_vowel_harmony("kitap", "lerin"));
}

#[test]
fn test_harmony_consonant_only_suffixes() {
    assert!(check_vowel_harmony("kitap", "m"));
    assert!(check_vowel_harmony("ev", "m"));
}

#[test]
fn test_harmony_edge_cases() {
    assert!(!check_vowel_harmony("xyz", "lar"));

    assert!(check_vowel_harmony("kitap", ""));

    assert!(check_vowel_harmony("a", "lar"));
    assert!(check_vowel_harmony("e", "ler"));
}

#[test]
fn vowel_harmony_test_real_world_examples() {
    let valid_pairs = vec![
        ("masa", "lar"),
        ("kalem", "ler"),
        ("okul", "dan"),
        ("öğrenci", "den"),
        ("bilgisayar", "ların"),
        ("telefon", "lar"),
    ];

    for (root, suffix) in valid_pairs {
        assert!(check_vowel_harmony(root, suffix), "{} + {} should be valid", root, suffix);
    }

    let invalid_pairs = vec![("masa", "ler"), ("kalem", "lar"), ("okul", "den"), ("öğrenci", "dan")];

    for (root, suffix) in invalid_pairs {
        assert!(!check_vowel_harmony(root, suffix), "{} + {} should be invalid", root, suffix);
    }
}

#[test]
fn vowel_class_axes() {
    assert!(VowelClass::FrontRounded.is_front());
    assert!(!VowelClass::FrontRounded.is_back());
    assert!(VowelClass::FrontRounded.is_rounded());
    assert!(VowelClass::BackUnrounded.is_back());
    assert!(!VowelClass::BackUnrounded.is_rounded());
    assert!(VowelClass::BackRounded.is_rounded());
    assert!(!VowelClass::FrontUnrounded.is_rounded());
}

#[test]
fn harmony_ignores_rounding() {
    assert!(check_harmony(VowelClass::FrontUnrounded, VowelClass::FrontRounded));
    assert!(check_harmony(VowelClass::BackRounded, VowelClass::BackUnrounded));
    assert!(!check_harmony(VowelClass::BackRounded, VowelClass::FrontRounded));
    // rounded stem, unrounded suffix: accepted
    assert!(check_vowel_harmony("yol", "lar"));
}

#[test]
fn upper_case_vowels_are_folded() {
    assert_eq!(get_vowel_class('Ö'), Some(VowelClass::FrontRounded));
    assert_eq!(get_vowel_class('A'), Some(VowelClass::BackUnrounded));
    assert_eq!(get_last_vowel_class("KİTAP"), Some(VowelClass::BackUnrounded));
    assert!(check_vowel_harmony("EV", "ler"));
}

#[test]
fn fixed_morphemes_always_agree() {
    assert!(check_vowel_harmony("gel", "yor"));
    assert!(check_vowel_harmony("kitap", "ki"));
    assert!(check_vowel_harmony("", "yor"));
    assert!(check_vowel_harmony("xyz", "ken"));
    assert!(check_vowel_harmony("sabah", "leyin"));
    assert!(is_fixed_morpheme("yor"));
    assert!(!is_fixed_morpheme("lar"));
    // a suffix that is not fixed still needs harmony
    assert!(!check_vowel_harmony("", "lar"));
}
