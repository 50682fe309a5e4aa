use durak_core::lemmatizer::Lemmatizer;
use durak_core::{fast_normalize, lookup_lemma, strip_suffixes, strip_suffixes_validated};

#[test]
fn strict_dictionary_hits() {
    assert_eq!(strip_suffixes_validated("kitaplar", true, 2, true), "kitap");
    assert_eq!(strip_suffixes_validated("geliyorum", true, 2, true), "gel");
    assert_eq!(strip_suffixes_validated("gittim", true, 2, true), "git");
}

#[test]
fn lenient_peels_case_then_plural() {
    assert_eq!(strip_suffixes_validated("kitaplardan", false, 2, true), "kitap");
}

#[test]
fn lenient_peels_case_possessive_plural() {
    assert_eq!(strip_suffixes_validated("evlerimizden", false, 2, true), "ev");
}

#[test]
fn harmony_blocks_disharmonic_peel() {
    assert_eq!(strip_suffixes_validated("kitapler", false, 2, true), "kitapler");
}

#[test]
fn harmony_off_allows_peel() {
    assert_eq!(strip_suffixes_validated("kitapler", false, 2, false), "kitap");
}

#[test]
fn no_vowels_unchanged() {
    assert_eq!(strip_suffixes_validated("xyz", false, 2, true), "xyz");
    assert_eq!(strip_suffixes_validated("krm", false, 2, true), "krm");
    assert_eq!(strip_suffixes_validated("xyz", true, 2, true), "xyz");
}

#[test]
fn bound_stem_blocks_over_stripping() {
    assert_eq!(strip_suffixes_validated("öğrenci", false, 2, true), "öğrenci");
}

#[test]
fn empty_input_gives_empty_output() {
    assert_eq!(strip_suffixes_validated("", false, 2, true), "");
    assert_eq!(strip_suffixes_validated("", true, 2, true), "");
    assert_eq!(strip_suffixes_validated("", false, 0, false), "");
}

#[test]
fn single_character_unchanged() {
    assert_eq!(strip_suffixes_validated("a", false, 0, true), "a");
    assert_eq!(strip_suffixes_validated("m", true, 1, false), "m");
}

#[test]
fn bound_stem_input_unchanged() {
    assert_eq!(strip_suffixes_validated("öğrenc", false, 2, true), "öğrenc");
    assert_eq!(strip_suffixes_validated("öğret", true, 2, true), "öğret");
}

#[test]
fn lemmas_strip_to_themselves() {
    for lemma in ["kitap", "ev", "gel", "git", "okul", "masa", "kalem", "göz", "telefon"] {
        assert_eq!(strip_suffixes_validated(lemma, true, 2, true), lemma);
    }
}

#[test]
fn inflections_strip_to_their_lemmas() {
    assert_eq!(strip_suffixes_validated("evlerimizden", true, 2, true), "ev");
    assert_eq!(strip_suffixes_validated("bilgisayarlar", true, 2, true), "bilgisayar");
    assert_eq!(strip_suffixes_validated("öğrenciler", true, 2, true), "öğrenci");
}

#[test]
fn minimum_length_is_respected() {
    let r = strip_suffixes_validated("evler", false, 3, true);
    assert_eq!(r, "evler");
    assert!(r.chars().count() >= 3);
}

#[test]
fn long_word_terminates() {
    let r = strip_suffixes_validated("kitaplarımızdakilerdenmişsinizcesine", false, 2, true);
    assert!(!r.is_empty());
}

#[test]
fn morphotactics_blocks_case_before_plural() {
    assert_eq!(strip_suffixes_validated("evdeler", false, 2, true), "evde");
}

#[test]
fn strict_stem_is_root_or_input() {
    assert_eq!(strip_suffixes_validated("kitaplarda", true, 2, true), "kitap");
    assert_eq!(strip_suffixes_validated("xyzabc", true, 2, true), "xyzabc");
}

#[test]
fn lemmatizer_is_reusable() {
    let l = Lemmatizer::new();
    assert_eq!(l.strip_validated("kitaplardan", false, 2, true), "kitap");
    assert_eq!(l.strip_validated("kitaplar", true, 2, true), "kitap");
}

#[test]
fn exact_lookup() {
    assert_eq!(lookup_lemma("kitaplar"), Some("kitap".to_string()));
    assert_eq!(lookup_lemma("gittim"), Some("git".to_string()));
    assert_eq!(lookup_lemma("kitap"), None);
}

#[test]
fn naive_stripper() {
    assert_eq!(strip_suffixes("kitaplar"), "kitap");
    assert_eq!(strip_suffixes("evlerden"), "evler");
    assert_eq!(strip_suffixes("kitap"), "kitap");
    assert_eq!(strip_suffixes("dün"), "dün");
}

#[test]
fn normalization_handles_dotted_and_dotless_i() {
    assert_eq!(fast_normalize("İSTANBUL"), "istanbul");
    assert_eq!(fast_normalize("IŞIK"), "ışık");
    assert_eq!(fast_normalize("Kitap"), "kitap");
    assert_eq!(fast_normalize(""), "");
}
