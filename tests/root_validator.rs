use durak_core::lemma_dict::{split_lines, LemmaDictionary};
use durak_core::{get_valid_roots, RootValidator};

#[test]
fn test_min_length() {
    let validator = RootValidator::new(2, false);
    assert!(!validator.is_valid_root("k"));
    assert!(validator.is_valid_root("ki"));
    assert!(validator.is_valid_root("kitap"));
}

#[test]
fn test_vowel_requirement() {
    let validator = RootValidator::default();
    assert!(!validator.is_valid_root("krm"));
    assert!(validator.is_valid_root("karma"));
}

#[test]
fn test_invalid_clusters() {
    let validator = RootValidator::default();
    assert!(!validator.is_valid_root("kitaçk"));
    assert!(validator.is_valid_root("kitap"));
}

#[test]
fn test_bound_stems_rejected() {
    let validator = RootValidator::default();
    assert!(!validator.is_valid_root("öğrenc"));
    assert!(!validator.is_valid_root("ÖĞRENC"));
}

#[test]
fn test_valid_word_endings() {
    let validator = RootValidator::default();
    assert!(validator.is_valid_root("kita"));
    assert!(validator.is_valid_root("evi"));
    assert!(validator.is_valid_root("kal"));
    assert!(validator.is_valid_root("gel"));
    assert!(validator.is_valid_root("gün"));
    assert!(validator.is_valid_root("kitap"));
    assert!(validator.is_valid_root("at"));
}

#[test]
fn test_strict_mode() {
    let validator = RootValidator::new(2, true);
    assert!(validator.is_valid_root("kitap"));
    assert!(validator.is_valid_root("ev"));
    assert!(!validator.is_valid_root("xyzabc"));
}

#[test]
fn test_known_roots() {
    let roots = get_valid_roots();
    assert!(roots.contains("kitap"));
    assert!(roots.contains("ev"));
    assert!(roots.contains("gel"));
    assert!(roots.contains("git"));
}

#[test]
fn syllable_ratio_bounds() {
    let validator = RootValidator::default();
    // four letters, one vowel: exactly a quarter
    assert!(validator.is_valid_root("kalm"));
    // five letters, one vowel: exactly a fifth
    assert!(validator.is_valid_root("krakl"));
    // six letters, one vowel: under a fifth
    assert!(!validator.is_valid_root("krrakl"));
    // four letters, three vowels: over seven tenths
    assert!(!validator.is_valid_root("aeal"));
    // ten letters, seven vowels: exactly seven tenths
    assert!(validator.is_valid_root("aeaeaeabcl"));
}

#[test]
fn bound_stem_as_suffix_is_rejected() {
    let validator = RootValidator::default();
    assert!(!validator.is_valid_root("kaöğret"));
    assert!(!validator.is_valid_root("ÖĞRET"));
}

#[test]
fn short_stop_final_root() {
    let validator = RootValidator::default();
    assert!(validator.is_valid_root("ok"));
    assert!(!validator.is_valid_root("kt"));
}

#[test]
fn strict_mode_still_checks_length_and_bound_stems() {
    let validator = RootValidator::new(3, true);
    assert!(!validator.is_valid_root("ev"));
    assert!(validator.is_valid_root("kitap"));
}

#[test]
fn dictionary_text_is_parsed() {
    let dict = LemmaDictionary::parse("  a\tb  \n# c\td\r\n\n e \t f\r\nnotab\n");
    assert_eq!(dict.lookup("a"), Some("b".to_string()));
    assert_eq!(dict.lookup("e"), Some("f".to_string()));
    assert_eq!(dict.lookup("# c"), None);
    assert_eq!(dict.lookup("notab"), None);
    assert_eq!(dict.lookup(""), None);
    let roots = dict.roots();
    assert!(roots.contains("b"));
    assert!(roots.contains("f"));
    assert!(!roots.contains("d"));
}

#[test]
fn later_record_replaces_earlier() {
    let dict = LemmaDictionary::parse("x\ty\nx\tz\n");
    assert_eq!(dict.lookup("x"), Some("z".to_string()));
}

#[test]
fn records_with_empty_fields_are_skipped() {
    let dict = LemmaDictionary::parse("\tlemma\nword\t \nok\u{a0}\t\u{2003}fine\n");
    assert_eq!(dict.lookup(""), None);
    assert_eq!(dict.lookup("word"), None);
    assert_eq!(dict.lookup("ok"), Some("fine".to_string()));
    let roots = dict.roots();
    assert!(!roots.contains("lemma"));
    assert!(!roots.contains(""));
}

#[test]
fn lines_split_like_std() {
    assert_eq!(split_lines("a\r\nb\rc\n\n"), vec!["a", "b\rc", ""]);
    assert_eq!(split_lines("x\r"), vec!["x\r"]);
    assert_eq!(split_lines(""), Vec::<&str>::new());
    assert_eq!(split_lines("\n"), vec![""]);
}
