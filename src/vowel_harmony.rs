//! Turkish vowel classes and the front/back harmony between a stem and a
//! suffix.
//!
//! Front vowels are e, i, ö, ü; back vowels are a, ı, o, u. Rounded vowels
//! are o, ö, u, ü. Only the front/back axis is enforced between a stem and
//! a suffix; rounding is left free.

use vstd::prelude::*;
use crate::text::{chars_of, str_eq};

verus! {

/// The four classes of Turkish vowels.
#[derive(Debug, Clone, Copy, PartialEq, Eq, Structural)]
pub enum VowelClass {
    /// e, i
    FrontUnrounded,
    /// ö, ü
    FrontRounded,
    /// a, ı
    BackUnrounded,
    /// o, u
    BackRounded,
}

impl VowelClass {
    pub open spec fn front(self) -> bool {
        self is FrontUnrounded || self is FrontRounded
    }

    pub open spec fn rounded(self) -> bool {
        self is FrontRounded || self is BackRounded
    }

    /// Whether the class is front (e, i, ö, ü).
    pub fn is_front(&self) -> (r: bool)
        ensures
            r == self.front(),
    {
        match self {
            VowelClass::FrontUnrounded | VowelClass::FrontRounded => true,
            _ => false,
        }
    }

    /// Whether the class is back (a, ı, o, u).
    pub fn is_back(&self) -> (r: bool)
        ensures
            r == !self.front(),
    {
        !self.is_front()
    }

    /// Whether the class is rounded (o, ö, u, ü).
    pub fn is_rounded(&self) -> (r: bool)
        ensures
            r == self.rounded(),
    {
        match self {
            VowelClass::FrontRounded | VowelClass::BackRounded => true,
            _ => false,
        }
    }
}

/// The class of a character that is already in lower case; `None` for
/// anything but the eight Turkish vowels.
pub open spec fn class_of_lowered(c: char) -> Option<VowelClass> {
    if c == 'e' || c == 'i' {
        Some(VowelClass::FrontUnrounded)
    } else if c == 'ö' || c == 'ü' {
        Some(VowelClass::FrontRounded)
    } else if c == 'a' || c == 'ı' {
        Some(VowelClass::BackUnrounded)
    } else if c == 'o' || c == 'u' {
        Some(VowelClass::BackRounded)
    } else {
        None
    }
}

/// The first character of the lower-case mapping of `c`.
pub uninterp spec fn lower_head(c: char) -> char;

/// Relies on `char::to_lowercase`: its iterator yields one or more
/// characters, the first of which is returned.
#[verifier::external_body]
pub(crate) fn first_lowercase(c: char) -> (r: Option<char>)
    ensures
        r == Some(lower_head(c)),
{
    c.to_lowercase().next()
}

/// The vowel class of any character: its lower-case form, classified.
pub open spec fn class_of(c: char) -> Option<VowelClass> {
    class_of_lowered(lower_head(c))
}

/// Classifies a character that is already in lower case.
pub fn vowel_class_of_lowered(c: char) -> (r: Option<VowelClass>)
    ensures
        r == class_of_lowered(c),
{
    if c == 'e' || c == 'i' {
        Some(VowelClass::FrontUnrounded)
    } else if c == 'ö' || c == 'ü' {
        Some(VowelClass::FrontRounded)
    } else if c == 'a' || c == 'ı' {
        Some(VowelClass::BackUnrounded)
    } else if c == 'o' || c == 'u' {
        Some(VowelClass::BackRounded)
    } else {
        None
    }
}

/// The vowel class of `c` after folding it to lower case.
pub fn get_vowel_class(c: char) -> (r: Option<VowelClass>)
    ensures
        r == class_of(c),
{
    match first_lowercase(c) {
        Some(l) => vowel_class_of_lowered(l),
        None => None,
    }
}

/// The class of the right-most vowel of `s`, if any.
pub open spec fn last_vowel_class(s: Seq<char>) -> Option<VowelClass>
    decreases s.len(),
{
    if s.len() == 0 {
        None
    } else {
        match class_of(s.last()) {
            Some(v) => Some(v),
            None => last_vowel_class(s.drop_last()),
        }
    }
}

/// The class of the right-most vowel among `s`.
pub fn last_vowel_class_of(s: &[char]) -> (r: Option<VowelClass>)
    ensures
        r == last_vowel_class(s@),
{
    let mut i: usize = s.len();
    assert(s@.subrange(0, i as int) =~= s@);
    while i > 0
        invariant
            i <= s@.len(),
            last_vowel_class(s@) == last_vowel_class(s@.subrange(0, i as int)),
        decreases i,
    {
        let c = get_vowel_class(s[i - 1]);
        proof {
            let p = s@.subrange(0, i as int);
            assert(p.drop_last() =~= s@.subrange(0, i - 1));
            assert(p.last() == s@[i - 1]);
        }
        if c.is_some() {
            return c;
        }
        i = i - 1;
    }
    assert(s@.subrange(0, 0) =~= Seq::<char>::empty());
    None
}

/// The class of the right-most vowel of `word`, which decides the harmony
/// of a suffix attached to it.
pub fn get_last_vowel_class(word: &str) -> (r: Option<VowelClass>)
    ensures
        r == last_vowel_class(word@),
{
    let w = chars_of(word);
    last_vowel_class_of(w.as_slice())
}

/// Whether a suffix vowel agrees with the stem vowel: they lie on the same
/// side of the front/back axis.
pub fn check_harmony(root_vowel: VowelClass, suffix_vowel: VowelClass) -> (r: bool)
    ensures
        r == (root_vowel.front() == suffix_vowel.front()),
{
    root_vowel.is_front() == suffix_vowel.is_front()
}

/// Every vowel of `suffix` agrees with `v` on the front/back axis.
pub open spec fn vowels_agree(v: VowelClass, suffix: Seq<char>) -> bool {
    forall|i: int|
        0 <= i < suffix.len() && (#[trigger] class_of(suffix[i])) is Some
            ==> class_of(suffix[i])->0.front() == v.front()
}

/// The harmony predicate: the stem must hold a vowel, and each vowel of
/// the suffix must agree with the stem's last vowel. A suffix without
/// vowels always agrees.
pub open spec fn harmonizes(root: Seq<char>, suffix: Seq<char>) -> bool {
    match last_vowel_class(root) {
        None => false,
        Some(v) => vowels_agree(v, suffix),
    }
}

/// Suffixes that never harmonize: the present continuous, the "while"
/// marker, the relativizer and the time adverbial.
pub open spec fn fixed_morphemes() -> Seq<&'static str> {
    seq!["yor", "ken", "ki", "leyin"]
}

pub open spec fn is_fixed(s: Seq<char>) -> bool {
    exists|i: int| 0 <= i < fixed_morphemes().len() && (#[trigger] fixed_morphemes()[i])@ == s
}

/// Whether `s` is a fixed morpheme.
pub fn is_fixed_morpheme(s: &str) -> (r: bool)
    ensures
        r == is_fixed(s@),
{
    let fixed = vec!["yor", "ken", "ki", "leyin"];
    assert(fixed@ =~= fixed_morphemes());
    let mut i: usize = 0;
    while i < fixed.len()
        invariant
            fixed@ == fixed_morphemes(),
            i <= fixed@.len(),
            forall|j: int| 0 <= j < i ==> (#[trigger] fixed_morphemes()[j])@ != s@,
        decreases fixed.len() - i,
    {
        if str_eq(fixed[i], s) {
            assert(fixed_morphemes()[i as int]@ == s@);
            return true;
        }
        i = i + 1;
    }
    false
}

/// The harmony predicate on character slices.
pub fn harmonizes_chars(root: &[char], suffix: &[char]) -> (r: bool)
    ensures
        r == harmonizes(root@, suffix@),
{
    let root_vowel = match last_vowel_class_of(root) {
        Some(v) => v,
        None => return false,
    };
    let mut i: usize = 0;
    while i < suffix.len()
        invariant
            i <= suffix@.len(),
            last_vowel_class(root@) == Some(root_vowel),
            forall|j: int|
                0 <= j < i && (#[trigger] class_of(suffix@[j])) is Some
                    ==> class_of(suffix@[j])->0.front() == root_vowel.front(),
        decreases suffix.len() - i,
    {
        match get_vowel_class(suffix[i]) {
            Some(v) => {
                if !check_harmony(root_vowel, v) {
                    return false;
                }
            },
            None => {},
        }
        i = i + 1;
    }
    true
}

/// The harmony predicate as exposed: a fixed morpheme always agrees;
/// any other suffix must harmonize with the root.
pub open spec fn harmony_ok(root: Seq<char>, suffix: Seq<char>) -> bool {
    is_fixed(suffix) || harmonizes(root, suffix)
}

/// Whether `suffix` may follow `root`: true for a fixed morpheme, checked
/// before any vowel is looked at; otherwise whether the suffix harmonizes
/// with the root, which is false when `root` holds no vowel, since harmony
/// cannot then be decided.
pub fn check_vowel_harmony(root: &str, suffix: &str) -> (r: bool)
    ensures
        r == harmony_ok(root@, suffix@),
{
    if is_fixed_morpheme(suffix) {
        return true;
    }
    let rc = chars_of(root);
    let sc = chars_of(suffix);
    harmonizes_chars(rc.as_slice(), sc.as_slice())
}

} // verus!
