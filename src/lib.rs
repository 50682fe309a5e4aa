//! Turkish lemmatization core: vowel harmony, suffix morphotactics, root
//! validity and a validated suffix stripper, all proved against their
//! contracts.

pub mod inventory;
pub mod laws;
pub mod lemma_dict;
pub mod lemmatizer;
pub mod morphotactics;
pub mod root_validator;
pub mod text;
pub mod vowel_harmony;

use vstd::prelude::*;
use vstd::string::StrSliceExecFns;
use vstd::utf8::encode_utf8;
use crate::lemma_dict::{embedded_records, lookup_in, LemmaDictionary};
use crate::lemmatizer::peel;
use crate::text::{has_suffix, str_ends_with};
use crate::vowel_harmony::{first_lowercase, lower_head};

pub use crate::lemma_dict::get_valid_roots;
pub use crate::lemmatizer::strip_suffixes_validated;
pub use crate::morphotactics::{MorphotacticClassifier, NominalSlot, SuffixSlot, VerbalSlot};
pub use crate::root_validator::RootValidator;
pub use crate::vowel_harmony::{
    check_harmony, check_vowel_harmony, get_last_vowel_class, get_vowel_class, VowelClass,
};

verus! {

/// The lemma that the embedded dictionary records for `word`, if any.
pub fn lookup_lemma(word: &str) -> (r: Option<String>)
    ensures
        r matches Some(l) ==> lookup_in(embedded_records(), word@) == Some(l@),
        r is None ==> lookup_in(embedded_records(), word@) is None,
{
    LemmaDictionary::embedded().lookup(word)
}

/// Turkish-aware lower case of one character: dotted capital I gives i,
/// dotless capital I gives dotless ı, others their first lower-case
/// character.
pub open spec fn turkish_lower(c: char) -> char {
    if c == 'İ' {
        'i'
    } else if c == 'I' {
        'ı'
    } else {
        lower_head(c)
    }
}

/// Relies on `String`'s `FromIterator<char>`: the string of `chars`.
#[verifier::external_body]
fn string_from_chars(chars: &Vec<char>) -> (r: String)
    ensures
        r@ == chars@,
{
    chars.iter().collect()
}

/// Lower-cases `text` character by character, with the Turkish dotted and
/// dotless I.
pub fn fast_normalize(text: &str) -> (r: String)
    ensures
        r@ == text@.map_values(|c: char| turkish_lower(c)),
{
    let n = text.unicode_len();
    let mut out: Vec<char> = Vec::new();
    let mut i: usize = 0;
    while i < n
        invariant
            n == text@.len(),
            i <= n,
            out@ =~= text@.subrange(0, i as int).map_values(|c: char| turkish_lower(c)),
        decreases n - i,
    {
        let c = text.get_char(i);
        let l = if c == 'İ' {
            'i'
        } else if c == 'I' {
            'ı'
        } else {
            match first_lowercase(c) {
                Some(l) => l,
                None => c,
            }
        };
        out.push(l);
        i = i + 1;
    }
    string_from_chars(&out)
}

/// The suffixes of the naive stripper, tried in this order.
pub open spec fn naive_suffixes() -> Seq<&'static str> {
    seq!["lar", "ler", "nin", "nın", "den", "dan", "du", "dün"]
}

/// The length of `s` in UTF-8 bytes, as `str::len` gives it.
pub open spec fn byte_len(s: Seq<char>) -> usize {
    encode_utf8(s).len() as usize
}

/// The naive stripper may remove `s` from `w`: it ends `w`, and more than
/// two bytes of `w` remain.
pub open spec fn naive_ok(w: Seq<char>, s: Seq<char>) -> bool {
    s.len() > 0 && has_suffix(w, s) && byte_len(w) > byte_len(s) + 2
}

/// The first suffix of `list` that the naive stripper may remove from `w`.
pub open spec fn first_naive(w: Seq<char>, list: Seq<&'static str>) -> Option<Seq<char>>
    decreases list.len(),
{
    if list.len() == 0 {
        None
    } else if naive_ok(w, list[0]@) {
        Some(list[0]@)
    } else {
        first_naive(w, list.drop_first())
    }
}

/// The naive stripper: remove the first removable suffix, again and again.
pub open spec fn naive_strip(w: Seq<char>) -> Seq<char>
    decreases w.len(),
{
    match first_naive(w, naive_suffixes()) {
        Some(s) => if 0 < s.len() <= w.len() {
            naive_strip(peel(w, s))
        } else {
            w
        },
        None => w,
    }
}

proof fn lemma_first_naive_ok(w: Seq<char>, list: Seq<&'static str>)
    ensures
        first_naive(w, list) matches Some(s) ==> naive_ok(w, s),
    decreases list.len(),
{
    if list.len() > 0 && !naive_ok(w, list[0]@) {
        lemma_first_naive_ok(w, list.drop_first());
    }
}

/// The first suffix that the naive stripper may remove from `w`.
fn find_naive(w: &str) -> (r: Option<&'static str>)
    ensures
        r matches Some(s) ==> first_naive(w@, naive_suffixes()) == Some(s@),
        r is None ==> first_naive(w@, naive_suffixes()) is None,
{
    let list = vec!["lar", "ler", "nin", "nın", "den", "dan", "du", "dün"];
    assert(list@ =~= naive_suffixes());
    let ghost l = naive_suffixes();
    let mut i: usize = 0;
    assert(l.subrange(0, l.len() as int) =~= l);
    while i < list.len()
        invariant
            list@ == l,
            l == naive_suffixes(),
            i <= l.len(),
            first_naive(w@, l) == first_naive(w@, l.subrange(i as int, l.len() as int)),
        decreases list.len() - i,
    {
        let s = list[i];
        assert(w.len() == byte_len(w@));
        assert(s.len() == byte_len(s@));
        let ghost rest = l.subrange(i as int, l.len() as int);
        assert(rest.drop_first() =~= l.subrange(i + 1, l.len() as int));
        assert(rest[0] == s);
        if s.unicode_len() > 0 && str_ends_with(w, s) && w.len() > s.len() && w.len() - s.len() > 2 {
            return Some(s);
        }
        i = i + 1;
    }
    None
}

/// Naive greedy stripping over a small core suffix list: a suffix is
/// removed while more than two bytes would remain, and the scan restarts
/// after each removal.
pub fn strip_suffixes(word: &str) -> (r: String)
    ensures
        r@ == naive_strip(word@),
{
    let mut current: &str = word;
    loop
        invariant
            naive_strip(current@) == naive_strip(word@),
        decreases current@.len(),
    {
        proof {
            lemma_first_naive_ok(current@, naive_suffixes());
        }
        match find_naive(current) {
            Some(s) => {
                let cn = current.unicode_len();
                let sn = s.unicode_len();
                current = current.substring_char(0, cn - sn);
            },
            None => {
                return current.to_owned();
            },
        }
    }
}

} // verus!
