use durak_core::{MorphotacticClassifier, NominalSlot, SuffixSlot, VerbalSlot};

#[test]
fn test_suffix_classification() {
    let classifier = MorphotacticClassifier::new();

    assert!(matches!(classifier.classify("lar"), SuffixSlot::Nominal(NominalSlot::Plural)));
    assert!(matches!(classifier.classify("da"), SuffixSlot::Nominal(NominalSlot::Case)));

    assert!(matches!(classifier.classify("di"), SuffixSlot::Verbal(VerbalSlot::TenseAspect)));
    assert!(matches!(classifier.classify("yor"), SuffixSlot::Verbal(VerbalSlot::TenseAspect)));

    assert!(matches!(classifier.classify("ım"), SuffixSlot::Verbal(VerbalSlot::Person)));
    assert!(matches!(classifier.classify("m"), SuffixSlot::Verbal(VerbalSlot::Person)));

    assert!(matches!(classifier.classify("xyz"), SuffixSlot::Unknown));
}

#[test]
fn test_valid_nominal_sequences() {
    let classifier = MorphotacticClassifier::new();

    assert!(classifier.validate_sequence(&["lar", "ım", "da"]));
    assert!(classifier.validate_sequence(&["im", "de"]));
    assert!(classifier.validate_sequence(&["lar"]));
    assert!(classifier.validate_sequence(&[]));
}

#[test]
fn test_invalid_nominal_sequences() {
    let classifier = MorphotacticClassifier::new();

    assert!(!classifier.validate_sequence(&["da", "lar"]));
    assert!(!classifier.validate_sequence(&["lar", "da", "ım"]));
    assert!(!classifier.validate_sequence(&["ım", "lar"]));
}

#[test]
fn test_valid_verbal_sequences() {
    let classifier = MorphotacticClassifier::new();

    assert!(classifier.validate_sequence(&["di", "m"]));
    assert!(classifier.validate_sequence(&["ıl", "dı"]));
    assert!(classifier.validate_sequence(&["ma", "dı", "m"]));
}

#[test]
fn test_invalid_verbal_sequences() {
    let classifier = MorphotacticClassifier::new();

    assert!(!classifier.validate_sequence(&["m", "di"]));
    assert!(!classifier.validate_sequence(&["dı", "ma"]));
}

#[test]
fn test_mixed_paradigm_rejection() {
    let classifier = MorphotacticClassifier::new();

    assert!(!classifier.validate_sequence(&["lar", "di"]));
    assert!(!classifier.validate_sequence(&["di", "da"]));
}

#[test]
fn test_unknown_suffix_permissive() {
    let classifier = MorphotacticClassifier::new();

    assert!(classifier.validate_sequence(&["xyz"]));
    assert!(classifier.validate_sequence(&["lar", "xyz"]));
    assert!(classifier.validate_sequence(&["xyz", "lar"]));
}

#[test]
fn morphotactics_test_real_world_examples() {
    let classifier = MorphotacticClassifier::new();

    assert!(classifier.validate_sequence(&["lar", "ım", "da"]));
    assert!(classifier.validate_sequence(&["ler", "imiz", "den"]));
    assert!(classifier.validate_sequence(&["di", "m"]));
    assert!(classifier.validate_sequence(&["yor", "um"]));

    assert!(!classifier.validate_sequence(&["da", "lar"]));
    assert!(!classifier.validate_sequence(&["m", "di"]));
}

#[test]
fn equal_slots_are_accepted() {
    let classifier = MorphotacticClassifier::default();
    assert!(classifier.validate_sequence(&["lar", "lar"]));
    assert!(classifier.validate_sequence(&["di", "dı"]));
}

#[test]
fn ambiguous_suffix_with_unknown_is_rejected() {
    let classifier = MorphotacticClassifier::new();
    // "ım" is in both paradigms, so neither reading accepts the unknown suffix
    assert!(!classifier.validate_sequence(&["ım", "xyz"]));
    // the nominal reading of an ambiguous suffix rescues the sequence
    assert!(classifier.validate_sequence(&["ın", "da"]));
    assert!(classifier.validate_sequence(&["ın", "dı"]));
}

#[test]
fn slot_ranks() {
    assert_eq!(NominalSlot::Plural.rank(), 1);
    assert_eq!(NominalSlot::Copula.rank(), 4);
    assert_eq!(VerbalSlot::Voice.rank(), 1);
    assert_eq!(VerbalSlot::Person.rank(), 4);
    assert_eq!(VerbalSlot::Copula.rank(), 5);
}
