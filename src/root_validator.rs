//! Root validity after suffix stripping.
//!
//! A candidate root must be long enough and must not be, nor end in, a
//! bound stem (a form that looks like a root but never stands alone). In
//! strict mode it must then be a lemma of the dictionary; otherwise it must
//! obey Turkish phonotactics.

use vstd::prelude::*;
use vstd::string::StrSliceExecFns;
use crate::lemma_dict::{embedded_records, get_valid_roots, lemmas_of, ValidRoots};
use crate::text::{chars_end_with, chars_of, has_suffix};

verus! {

/// The Turkish vowels, in either case.
pub open spec fn is_turkish_vowel(c: char) -> bool {
    c == 'a' || c == 'e' || c == 'ı' || c == 'i' || c == 'o' || c == 'ö' || c == 'u' || c == 'ü'
        || c == 'A' || c == 'E' || c == 'I' || c == 'İ' || c == 'O' || c == 'Ö' || c == 'U' || c == 'Ü'
}

/// Sonorant consonants, which end words freely.
pub open spec fn is_sonorant(c: char) -> bool {
    c == 'l' || c == 'r' || c == 'n' || c == 'm' || c == 'y' || c == 'L' || c == 'R' || c == 'N'
        || c == 'M' || c == 'Y'
}

/// Voiceless stops.
pub open spec fn is_voiceless_stop(c: char) -> bool {
    c == 'p' || c == 'ç' || c == 't' || c == 'k' || c == 'P' || c == 'Ç' || c == 'T' || c == 'K'
}

/// Consonant clusters that cannot end a Turkish word.
pub open spec fn invalid_final_clusters() -> Seq<&'static str> {
    seq![
        "çk", "çp", "çt", "ğk", "ğp", "ğt", "kb", "kc", "kç", "kg", "kğ", "kj", "pb", "pc",
        "pç", "pg", "pğ", "pj", "tb", "tc", "tç", "tg", "tğ", "tj", "nd", "nt", "nk", "ng",
    ]
}

/// Bound stems: they look like roots but are never free words.
pub open spec fn bound_stems() -> Seq<&'static str> {
    seq![
        "öğrenc", "öğret", "tanı", "yapı", "bili", "geli", "gidi", "kali", "veri", "alı", "olı",
        "görü", "bilü",
    ]
}

/// `s` ends in one of `list`.
pub open spec fn ends_in_any(s: Seq<char>, list: Seq<&'static str>) -> bool {
    exists|i: int| 0 <= i < list.len() && has_suffix(s, #[trigger] list[i]@)
}

/// The number of Turkish vowels in `s`.
pub open spec fn vowel_count(s: Seq<char>) -> nat
    decreases s.len(),
{
    if s.len() == 0 {
        0
    } else {
        vowel_count(s.drop_last()) + if is_turkish_vowel(s.last()) { 1nat } else { 0nat }
    }
}

/// Syllable structure: a vowel; beyond three characters, between a fifth
/// and seven tenths of the characters vowels.
pub open spec fn syllables_ok(s: Seq<char>) -> bool {
    let v = vowel_count(s);
    &&& v >= 1
    &&& (s.len() <= 3 || (5 * v >= s.len() && 10 * v <= 7 * s.len()))
}

/// Turkish phonotactics of `word`, whose lower-case form is `lower`.
pub open spec fn phonotactics_ok(word: Seq<char>, lower: Seq<char>) -> bool {
    &&& word.len() > 0
    &&& vowel_count(word) > 0
    &&& !ends_in_any(lower, invalid_final_clusters())
    &&& lower.len() > 0
    &&& {
        let last = lower.last();
        if is_turkish_vowel(last) {
            true
        } else if is_sonorant(last) {
            syllables_ok(lower)
        } else if is_voiceless_stop(last) {
            syllables_ok(lower)
        } else {
            true
        }
    }
}

/// The lower-case form of `s` as `str::to_lowercase` gives it.
pub uninterp spec fn lower_of(s: Seq<char>) -> Seq<char>;

/// Relies on `str::to_lowercase`: the lower-case form of `s`.
#[verifier::external_body]
pub(crate) fn lowercase(s: &str) -> (r: String)
    ensures
        r@ == lower_of(s@),
{
    s.to_lowercase()
}

/// Checks candidate roots.
pub struct RootValidator {
    /// Minimum acceptable root length, in characters.
    pub min_root_length: usize,
    /// Whether a root must be a lemma of the dictionary.
    pub strict: bool,
}

impl RootValidator {
    /// Whether `candidate`, whose lower-case form is `lower`, is acceptable
    /// as a root given the valid roots `roots`.
    pub open spec fn accepts(self, candidate: Seq<char>, lower: Seq<char>, roots: Seq<Seq<char>>) -> bool {
        &&& candidate.len() >= self.min_root_length
        &&& !ends_in_any(lower, bound_stems())
        &&& if self.strict {
            roots.contains(candidate)
        } else {
            phonotactics_ok(candidate, lower)
        }
    }

    /// A validator with the given minimum length and mode.
    pub fn new(min_root_length: usize, strict: bool) -> (r: Self)
        ensures
            r.min_root_length == min_root_length,
            r.strict == strict,
    {
        RootValidator { min_root_length, strict }
    }

    /// Whether `candidate` is a valid root, with the embedded dictionary
    /// giving the roots of strict mode.
    pub fn is_valid_root(&self, candidate: &str) -> (r: bool)
        ensures
            r == self.accepts(candidate@, lower_of(candidate@), lemmas_of(embedded_records())),
    {
        let lower = lowercase(candidate);
        if self.strict {
            let roots = get_valid_roots();
            self.is_valid_root_lowered(candidate, lower.as_str(), &roots)
        } else {
            let roots = ValidRoots::empty();
            self.is_valid_root_lowered(candidate, lower.as_str(), &roots)
        }
    }

    /// Whether `candidate`, whose lower-case form is `lower`, is a valid
    /// root given the valid roots `roots`.
    pub fn is_valid_root_lowered(&self, candidate: &str, lower: &str, roots: &ValidRoots) -> (r: bool)
        ensures
            r == self.accepts(candidate@, lower@, roots@),
    {
        if candidate.unicode_len() < self.min_root_length {
            return false;
        }
        let lower_chars = chars_of(lower);
        let stems = bound_stem_list();
        let mut i: usize = 0;
        while i < stems.len()
            invariant
                stems@ == bound_stems(),
                lower_chars@ == lower@,
                i <= stems@.len(),
                forall|j: int| 0 <= j < i ==> !has_suffix(lower@, #[trigger] stems@[j]@),
            decreases stems.len() - i,
        {
            let stem = chars_of(stems[i]);
            if chars_end_with(lower_chars.as_slice(), stem.as_slice()) {
                return false;
            }
            i = i + 1;
        }
        if self.strict {
            return roots.contains(candidate);
        }
        self.check_phonotactics(candidate, lower)
    }

    /// Turkish phonotactic constraints on `word`, whose lower-case form is
    /// `lower`.
    fn check_phonotactics(&self, word: &str, lower: &str) -> (r: bool)
        ensures
            r == phonotactics_ok(word@, lower@),
    {
        let chars = chars_of(word);
        if chars.len() == 0 {
            return false;
        }
        if count_vowels(chars.as_slice()) == 0 {
            return false;
        }
        let lower_chars = chars_of(lower);
        let clusters = invalid_final_cluster_list();
        let mut i: usize = 0;
        while i < clusters.len()
            invariant
                clusters@ == invalid_final_clusters(),
                lower_chars@ == lower@,
                i <= clusters@.len(),
                forall|j: int| 0 <= j < i ==> !has_suffix(lower@, #[trigger] clusters@[j]@),
            decreases clusters.len() - i,
        {
            let cluster = chars_of(clusters[i]);
            if chars_end_with(lower_chars.as_slice(), cluster.as_slice()) {
                return false;
            }
            i = i + 1;
        }
        let n = lower_chars.len();
        if n == 0 {
            return false;
        }
        let last_char = lower_chars[n - 1];
        if is_vowel(last_char) {
            return true;
        }
        if is_sonorant_char(last_char) {
            return self.has_valid_syllable_structure(lower_chars.as_slice());
        }
        if is_voiceless_stop_char(last_char) {
            return self.has_valid_syllable_structure(lower_chars.as_slice());
        }
        true
    }

    /// Whether `chars` has a plausible Turkish syllable structure.
    fn has_valid_syllable_structure(&self, chars: &[char]) -> (r: bool)
        ensures
            r == syllables_ok(chars@),
    {
        let vowel_count = count_vowels(chars);
        if vowel_count == 0 {
            return false;
        }
        if chars.len() <= 3 {
            return true;
        }
        let v = vowel_count as u128;
        let n = chars.len() as u128;
        5 * v >= n && 10 * v <= 7 * n
    }
}

impl Default for RootValidator {
    fn default() -> (r: Self)
        ensures
            r.min_root_length == 2,
            !r.strict,
    {
        RootValidator { min_root_length: 2, strict: false }
    }
}

fn is_vowel(c: char) -> (r: bool)
    ensures
        r == is_turkish_vowel(c),
{
    c == 'a' || c == 'e' || c == 'ı' || c == 'i' || c == 'o' || c == 'ö' || c == 'u' || c == 'ü'
        || c == 'A' || c == 'E' || c == 'I' || c == 'İ' || c == 'O' || c == 'Ö' || c == 'U' || c == 'Ü'
}

fn is_sonorant_char(c: char) -> (r: bool)
    ensures
        r == is_sonorant(c),
{
    c == 'l' || c == 'r' || c == 'n' || c == 'm' || c == 'y' || c == 'L' || c == 'R' || c == 'N'
        || c == 'M' || c == 'Y'
}

fn is_voiceless_stop_char(c: char) -> (r: bool)
    ensures
        r == is_voiceless_stop(c),
{
    c == 'p' || c == 'ç' || c == 't' || c == 'k' || c == 'P' || c == 'Ç' || c == 'T' || c == 'K'
}

/// The number of Turkish vowels in `s`.
fn count_vowels(s: &[char]) -> (r: usize)
    ensures
        r == vowel_count(s@),
        r <= s@.len(),
{
    let mut n: usize = 0;
    let mut i: usize = 0;
    while i < s.len()
        invariant
            i <= s@.len(),
            n == vowel_count(s@.subrange(0, i as int)),
            n <= i,
        decreases s.len() - i,
    {
        assert(s@.subrange(0, i + 1).drop_last() =~= s@.subrange(0, i as int));
        if is_vowel(s[i]) {
            n = n + 1;
        }
        i = i + 1;
    }
    assert(s@.subrange(0, s@.len() as int) =~= s@);
    n
}

fn invalid_final_cluster_list() -> (r: Vec<&'static str>)
    ensures
        r@ == invalid_final_clusters(),
{
    let r = vec![
        "çk", "çp", "çt", "ğk", "ğp", "ğt", "kb", "kc", "kç", "kg", "kğ", "kj", "pb", "pc",
        "pç", "pg", "pğ", "pj", "tb", "tc", "tç", "tg", "tğ", "tj", "nd", "nt", "nk", "ng",
    ];
    assert(r@ =~= invalid_final_clusters());
    r
}

fn bound_stem_list() -> (r: Vec<&'static str>)
    ensures
        r@ == bound_stems(),
{
    let r = vec![
        "öğrenc", "öğret", "tanı", "yapı", "bili", "geli", "gidi", "kali", "veri", "alı", "olı",
        "görü", "bilü",
    ];
    assert(r@ =~= bound_stems());
    r
}

} // verus!
