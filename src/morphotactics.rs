//! Suffix ordering in Turkish morphology.
//!
//! Nominal suffixes fill the slots Plural, Possessive, Case, Copula in that
//! order; verbal suffixes fill Voice, Negation, Tense/Aspect, Person,
//! Copula. A suffix sequence, read from the root outwards, is well formed
//! when it stays within one paradigm and its slots never go backwards.
//! Some surface forms belong to both paradigms (the first-person markers,
//! the short voice/case forms); for those both readings are tried.

use vstd::prelude::*;
use crate::text::str_eq;

verus! {

/// Slots of the nominal paradigm.
#[derive(Debug, Clone, Copy, PartialEq, Eq, Hash, PartialOrd, Ord, Structural)]
pub enum NominalSlot {
    /// -lar, -ler
    Plural,
    /// -ım, -im, -imiz, ...
    Possessive,
    /// -da, -dan, -ın, -a, ...
    Case,
    /// -dır, -dir, ...
    Copula,
}

/// Slots of the verbal paradigm.
#[derive(Debug, Clone, Copy, PartialEq, Eq, Hash, PartialOrd, Ord, Structural)]
pub enum VerbalSlot {
    /// -ıl, -il (passive), -ın, -in (reflexive)
    Voice,
    /// -ma, -me
    Negation,
    /// -di, -yor, -acak, -miş, ...
    TenseAspect,
    /// -m, -n, -k, -z, -ım, -nız, ...
    Person,
    /// -dır, -dir
    Copula,
}

impl NominalSlot {
    /// Position of the slot in the nominal paradigm, from 1.
    pub open spec fn spec_rank(self) -> nat {
        match self {
            NominalSlot::Plural => 1,
            NominalSlot::Possessive => 2,
            NominalSlot::Case => 3,
            NominalSlot::Copula => 4,
        }
    }

    pub fn rank(&self) -> (r: usize)
        ensures
            r == self.spec_rank(),
    {
        match self {
            NominalSlot::Plural => 1,
            NominalSlot::Possessive => 2,
            NominalSlot::Case => 3,
            NominalSlot::Copula => 4,
        }
    }
}

impl VerbalSlot {
    /// Position of the slot in the verbal paradigm, from 1.
    pub open spec fn spec_rank(self) -> nat {
        match self {
            VerbalSlot::Voice => 1,
            VerbalSlot::Negation => 2,
            VerbalSlot::TenseAspect => 3,
            VerbalSlot::Person => 4,
            VerbalSlot::Copula => 5,
        }
    }

    pub fn rank(&self) -> (r: usize)
        ensures
            r == self.spec_rank(),
    {
        match self {
            VerbalSlot::Voice => 1,
            VerbalSlot::Negation => 2,
            VerbalSlot::TenseAspect => 3,
            VerbalSlot::Person => 4,
            VerbalSlot::Copula => 5,
        }
    }
}

/// The slot of one suffix.
#[derive(Debug, Clone, Copy, PartialEq, Eq, Structural)]
pub enum SuffixSlot {
    Nominal(NominalSlot),
    Verbal(VerbalSlot),
    /// A suffix of neither paradigm.
    Unknown,
}

/// The nominal suffixes and their slots.
pub open spec fn nominal_table() -> Seq<(&'static str, NominalSlot)> {
    seq![
        ("lar", NominalSlot::Plural), ("ler", NominalSlot::Plural),
        ("ım", NominalSlot::Possessive), ("im", NominalSlot::Possessive),
        ("um", NominalSlot::Possessive), ("üm", NominalSlot::Possessive),
        ("ımız", NominalSlot::Possessive), ("imiz", NominalSlot::Possessive),
        ("umuz", NominalSlot::Possessive), ("ümüz", NominalSlot::Possessive),
        ("da", NominalSlot::Case), ("de", NominalSlot::Case),
        ("ta", NominalSlot::Case), ("te", NominalSlot::Case),
        ("dan", NominalSlot::Case), ("den", NominalSlot::Case),
        ("tan", NominalSlot::Case), ("ten", NominalSlot::Case),
        ("ın", NominalSlot::Case), ("in", NominalSlot::Case),
        ("un", NominalSlot::Case), ("ün", NominalSlot::Case),
        ("nın", NominalSlot::Case), ("nin", NominalSlot::Case),
        ("nun", NominalSlot::Case), ("nün", NominalSlot::Case),
        ("a", NominalSlot::Case), ("e", NominalSlot::Case),
        ("ya", NominalSlot::Case), ("ye", NominalSlot::Case),
        ("ı", NominalSlot::Case), ("i", NominalSlot::Case),
        ("u", NominalSlot::Case), ("ü", NominalSlot::Case),
    ]
}

/// The verbal suffixes and their slots.
pub open spec fn verbal_table() -> Seq<(&'static str, VerbalSlot)> {
    seq![
        ("ıl", VerbalSlot::Voice), ("il", VerbalSlot::Voice),
        ("ul", VerbalSlot::Voice), ("ül", VerbalSlot::Voice),
        ("ın", VerbalSlot::Voice), ("in", VerbalSlot::Voice),
        ("un", VerbalSlot::Voice), ("ün", VerbalSlot::Voice),
        ("ma", VerbalSlot::Negation), ("me", VerbalSlot::Negation),
        ("di", VerbalSlot::TenseAspect), ("dı", VerbalSlot::TenseAspect),
        ("du", VerbalSlot::TenseAspect), ("dü", VerbalSlot::TenseAspect),
        ("ti", VerbalSlot::TenseAspect), ("tı", VerbalSlot::TenseAspect),
        ("tu", VerbalSlot::TenseAspect), ("tü", VerbalSlot::TenseAspect),
        ("yor", VerbalSlot::TenseAspect), ("acak", VerbalSlot::TenseAspect),
        ("ecek", VerbalSlot::TenseAspect), ("mış", VerbalSlot::TenseAspect),
        ("miş", VerbalSlot::TenseAspect), ("muş", VerbalSlot::TenseAspect),
        ("müş", VerbalSlot::TenseAspect),
        ("m", VerbalSlot::Person), ("n", VerbalSlot::Person),
        ("k", VerbalSlot::Person), ("z", VerbalSlot::Person),
        ("ım", VerbalSlot::Person), ("im", VerbalSlot::Person),
        ("um", VerbalSlot::Person), ("üm", VerbalSlot::Person),
        ("nız", VerbalSlot::Person), ("niz", VerbalSlot::Person),
        ("nuz", VerbalSlot::Person), ("nüz", VerbalSlot::Person),
    ]
}

/// The slot that a table gives to the suffix `s`: that of its first entry
/// for `s`.
pub open spec fn table_slot<S>(t: Seq<(&'static str, S)>, s: Seq<char>) -> Option<S>
    decreases t.len(),
{
    if t.len() == 0 {
        None
    } else if t[0].0@ == s {
        Some(t[0].1)
    } else {
        table_slot(t.drop_first(), s)
    }
}

pub open spec fn nominal_slot_of(s: Seq<char>) -> Option<NominalSlot> {
    table_slot(nominal_table(), s)
}

pub open spec fn verbal_slot_of(s: Seq<char>) -> Option<VerbalSlot> {
    table_slot(verbal_table(), s)
}

/// A suffix found in both paradigms.
pub open spec fn is_ambiguous(s: Seq<char>) -> bool {
    nominal_slot_of(s) is Some && verbal_slot_of(s) is Some
}

/// Classification of one suffix: the verbal reading wins over the nominal
/// one.
pub open spec fn slot_of(s: Seq<char>) -> SuffixSlot {
    match verbal_slot_of(s) {
        Some(v) => SuffixSlot::Verbal(v),
        None => match nominal_slot_of(s) {
            Some(n) => SuffixSlot::Nominal(n),
            None => SuffixSlot::Unknown,
        },
    }
}

pub open spec fn nominal_rank(s: Seq<char>) -> nat {
    nominal_slot_of(s)->0.spec_rank()
}

pub open spec fn verbal_rank(s: Seq<char>) -> nat {
    verbal_slot_of(s)->0.spec_rank()
}

/// Every suffix is nominal and the slots never go backwards.
pub open spec fn nominal_monotone(sfx: Seq<Seq<char>>) -> bool {
    &&& forall|i: int| 0 <= i < sfx.len() ==> (#[trigger] nominal_slot_of(sfx[i])) is Some
    &&& forall|i: int, j: int|
        0 <= i < j < sfx.len() ==> #[trigger] nominal_rank(sfx[i]) <= #[trigger] nominal_rank(sfx[j])
}

/// Every suffix is verbal and the slots never go backwards.
pub open spec fn verbal_monotone(sfx: Seq<Seq<char>>) -> bool {
    &&& forall|i: int| 0 <= i < sfx.len() ==> (#[trigger] verbal_slot_of(sfx[i])) is Some
    &&& forall|i: int, j: int|
        0 <= i < j < sfx.len() ==> #[trigger] verbal_rank(sfx[i]) <= #[trigger] verbal_rank(sfx[j])
}

pub open spec fn any_ambiguous(sfx: Seq<Seq<char>>) -> bool {
    exists|i: int| 0 <= i < sfx.len() && #[trigger] is_ambiguous(sfx[i])
}

pub open spec fn any_unknown(sfx: Seq<Seq<char>>) -> bool {
    exists|i: int| 0 <= i < sfx.len() && #[trigger] slot_of(sfx[i]) is Unknown
}

/// A suffix sequence, root-adjacent first, is accepted when it is empty,
/// when it reads as a monotone sequence of one paradigm, or, where no
/// suffix is ambiguous, when some suffix is unknown (nothing can then be
/// checked).
pub open spec fn valid_sequence(sfx: Seq<Seq<char>>) -> bool {
    ||| sfx.len() == 0
    ||| nominal_monotone(sfx)
    ||| verbal_monotone(sfx)
    ||| (!any_ambiguous(sfx) && any_unknown(sfx))
}

/// The views of a sequence of strings.
pub open spec fn views(s: Seq<&str>) -> Seq<Seq<char>> {
    s.map_values(|x: &str| x@)
}

pub open spec fn slot_nominal_rank(s: SuffixSlot) -> nat {
    match s {
        SuffixSlot::Nominal(n) => n.spec_rank(),
        _ => 0,
    }
}

pub open spec fn slot_verbal_rank(s: SuffixSlot) -> nat {
    match s {
        SuffixSlot::Verbal(v) => v.spec_rank(),
        _ => 0,
    }
}

/// The nominal slots among `slots` never go backwards (others are passed
/// over).
pub open spec fn nominal_slots_ordered(slots: Seq<SuffixSlot>) -> bool {
    forall|i: int, j: int|
        0 <= i < j < slots.len() && slots[i] is Nominal && slots[j] is Nominal
            ==> #[trigger] slot_nominal_rank(slots[i]) <= #[trigger] slot_nominal_rank(slots[j])
}

/// The verbal slots among `slots` never go backwards (others are passed
/// over).
pub open spec fn verbal_slots_ordered(slots: Seq<SuffixSlot>) -> bool {
    forall|i: int, j: int|
        0 <= i < j < slots.len() && slots[i] is Verbal && slots[j] is Verbal
            ==> #[trigger] slot_verbal_rank(slots[i]) <= #[trigger] slot_verbal_rank(slots[j])
}

/// When every suffix reads as nominal, the nominal slots of that reading
/// are ordered exactly when the suffixes are monotone.
proof fn lemma_nominal_reading(sfx: Seq<Seq<char>>, slots: Seq<SuffixSlot>)
    requires
        slots.len() == sfx.len(),
        forall|j: int| 0 <= j < sfx.len() ==> (#[trigger] nominal_slot_of(sfx[j])) is Some
            && slots[j] == SuffixSlot::Nominal(nominal_slot_of(sfx[j])->0),
    ensures
        nominal_slots_ordered(slots) == nominal_monotone(sfx),
{
    if nominal_slots_ordered(slots) {
        assert forall|a: int, b: int| 0 <= a < b < sfx.len() implies #[trigger] nominal_rank(sfx[a])
            <= #[trigger] nominal_rank(sfx[b]) by {
            assert(nominal_slot_of(sfx[a]) is Some);
            assert(nominal_slot_of(sfx[b]) is Some);
            assert(slot_nominal_rank(slots[a]) <= slot_nominal_rank(slots[b]));
        }
    } else {
        let (a, b) = choose|a: int, b: int|
            0 <= a < b < slots.len() && slots[a] is Nominal && slots[b] is Nominal
                && !(#[trigger] slot_nominal_rank(slots[a]) <= #[trigger] slot_nominal_rank(slots[b]));
        assert(nominal_slot_of(sfx[a]) is Some);
        assert(nominal_slot_of(sfx[b]) is Some);
        assert(!(nominal_rank(sfx[a]) <= nominal_rank(sfx[b])));
    }
}

/// When every suffix reads as verbal, the verbal slots of that reading are
/// ordered exactly when the suffixes are monotone.
proof fn lemma_verbal_reading(sfx: Seq<Seq<char>>, slots: Seq<SuffixSlot>)
    requires
        slots.len() == sfx.len(),
        forall|j: int| 0 <= j < sfx.len() ==> (#[trigger] verbal_slot_of(sfx[j])) is Some
            && slots[j] == SuffixSlot::Verbal(verbal_slot_of(sfx[j])->0),
    ensures
        verbal_slots_ordered(slots) == verbal_monotone(sfx),
{
    if verbal_slots_ordered(slots) {
        assert forall|a: int, b: int| 0 <= a < b < sfx.len() implies #[trigger] verbal_rank(sfx[a])
            <= #[trigger] verbal_rank(sfx[b]) by {
            assert(verbal_slot_of(sfx[a]) is Some);
            assert(verbal_slot_of(sfx[b]) is Some);
            assert(slot_verbal_rank(slots[a]) <= slot_verbal_rank(slots[b]));
        }
    } else {
        let (a, b) = choose|a: int, b: int|
            0 <= a < b < slots.len() && slots[a] is Verbal && slots[b] is Verbal
                && !(#[trigger] slot_verbal_rank(slots[a]) <= #[trigger] slot_verbal_rank(slots[b]));
        assert(verbal_slot_of(sfx[a]) is Some);
        assert(verbal_slot_of(sfx[b]) is Some);
        assert(!(verbal_rank(sfx[a]) <= verbal_rank(sfx[b])));
    }
}

/// Looks `s` up in a suffix table.
fn find_slot<S: Copy>(t: &Vec<(&'static str, S)>, s: &str) -> (r: Option<S>)
    ensures
        r == table_slot(t@, s@),
{
    let mut i: usize = 0;
    assert(t@.subrange(0, t@.len() as int) =~= t@);
    while i < t.len()
        invariant
            i <= t@.len(),
            table_slot(t@, s@) == table_slot(t@.subrange(i as int, t@.len() as int), s@),
        decreases t.len() - i,
    {
        let ghost rest = t@.subrange(i as int, t@.len() as int);
        assert(rest.drop_first() =~= t@.subrange(i + 1, t@.len() as int));
        if str_eq(t[i].0, s) {
            return Some(t[i].1);
        }
        i = i + 1;
    }
    None
}

/// Maps suffixes to their morphotactic slots.
///
/// The two maps are tables of pairs searched in order, not `HashMap`s:
/// vstd specifies `HashMap` lookups only for keys whose hashing and
/// equality it models, which a string key is not, so nothing about a
/// lookup could be proved. The tables' contents are `nominal_table()` and
/// `verbal_table()`; a lookup takes the first entry for a suffix, and
/// within each table every suffix occurs once, as a map's keys would.
pub struct MorphotacticClassifier {
    nominal_map: Vec<(&'static str, NominalSlot)>,
    verbal_map: Vec<(&'static str, VerbalSlot)>,
}

impl MorphotacticClassifier {
    /// The classifier holds the two suffix tables.
    pub closed spec fn wf(&self) -> bool {
        self.nominal_map@ == nominal_table() && self.verbal_map@ == verbal_table()
    }

    /// A classifier with the nominal and verbal suffix tables.
    pub fn new() -> (r: Self)
        ensures
            r.wf(),
    {
        let nominal_map = vec![
            ("lar", NominalSlot::Plural), ("ler", NominalSlot::Plural),
            ("ım", NominalSlot::Possessive), ("im", NominalSlot::Possessive),
            ("um", NominalSlot::Possessive), ("üm", NominalSlot::Possessive),
            ("ımız", NominalSlot::Possessive), ("imiz", NominalSlot::Possessive),
            ("umuz", NominalSlot::Possessive), ("ümüz", NominalSlot::Possessive),
            ("da", NominalSlot::Case), ("de", NominalSlot::Case),
            ("ta", NominalSlot::Case), ("te", NominalSlot::Case),
            ("dan", NominalSlot::Case), ("den", NominalSlot::Case),
            ("tan", NominalSlot::Case), ("ten", NominalSlot::Case),
            ("ın", NominalSlot::Case), ("in", NominalSlot::Case),
            ("un", NominalSlot::Case), ("ün", NominalSlot::Case),
            ("nın", NominalSlot::Case), ("nin", NominalSlot::Case),
            ("nun", NominalSlot::Case), ("nün", NominalSlot::Case),
            ("a", NominalSlot::Case), ("e", NominalSlot::Case),
            ("ya", NominalSlot::Case), ("ye", NominalSlot::Case),
            ("ı", NominalSlot::Case), ("i", NominalSlot::Case),
            ("u", NominalSlot::Case), ("ü", NominalSlot::Case),
        ];
        let verbal_map = vec![
            ("ıl", VerbalSlot::Voice), ("il", VerbalSlot::Voice),
            ("ul", VerbalSlot::Voice), ("ül", VerbalSlot::Voice),
            ("ın", VerbalSlot::Voice), ("in", VerbalSlot::Voice),
            ("un", VerbalSlot::Voice), ("ün", VerbalSlot::Voice),
            ("ma", VerbalSlot::Negation), ("me", VerbalSlot::Negation),
            ("di", VerbalSlot::TenseAspect), ("dı", VerbalSlot::TenseAspect),
            ("du", VerbalSlot::TenseAspect), ("dü", VerbalSlot::TenseAspect),
            ("ti", VerbalSlot::TenseAspect), ("tı", VerbalSlot::TenseAspect),
            ("tu", VerbalSlot::TenseAspect), ("tü", VerbalSlot::TenseAspect),
            ("yor", VerbalSlot::TenseAspect), ("acak", VerbalSlot::TenseAspect),
            ("ecek", VerbalSlot::TenseAspect), ("mış", VerbalSlot::TenseAspect),
            ("miş", VerbalSlot::TenseAspect), ("muş", VerbalSlot::TenseAspect),
            ("müş", VerbalSlot::TenseAspect),
            ("m", VerbalSlot::Person), ("n", VerbalSlot::Person),
            ("k", VerbalSlot::Person), ("z", VerbalSlot::Person),
            ("ım", VerbalSlot::Person), ("im", VerbalSlot::Person),
            ("um", VerbalSlot::Person), ("üm", VerbalSlot::Person),
            ("nız", VerbalSlot::Person), ("niz", VerbalSlot::Person),
            ("nuz", VerbalSlot::Person), ("nüz", VerbalSlot::Person),
        ];
        let r = MorphotacticClassifier { nominal_map, verbal_map };
        assert(r.nominal_map@ =~= nominal_table());
        assert(r.verbal_map@ =~= verbal_table());
        r
    }
    /// The nominal suffixes, in table order.
    pub fn nominal_suffixes(&self) -> (r: Vec<&'static str>)
        requires
            self.wf(),
        ensures
            r@ == nominal_table().map_values(|e: (&'static str, NominalSlot)| e.0),
    {
        let mut r: Vec<&'static str> = Vec::new();
        let mut i: usize = 0;
        while i < self.nominal_map.len()
            invariant
                self.wf(),
                i <= self.nominal_map@.len(),
                r@ =~= nominal_table().map_values(|e: (&'static str, NominalSlot)| e.0).subrange(0, i as int),
            decreases self.nominal_map.len() - i,
        {
            r.push(self.nominal_map[i].0);
            i = i + 1;
        }
        r
    }

    /// The verbal suffixes, in table order.
    pub fn verbal_suffixes(&self) -> (r: Vec<&'static str>)
        requires
            self.wf(),
        ensures
            r@ == verbal_table().map_values(|e: (&'static str, VerbalSlot)| e.0),
    {
        let mut r: Vec<&'static str> = Vec::new();
        let mut i: usize = 0;
        while i < self.verbal_map.len()
            invariant
                self.wf(),
                i <= self.verbal_map@.len(),
                r@ =~= verbal_table().map_values(|e: (&'static str, VerbalSlot)| e.0).subrange(0, i as int),
            decreases self.verbal_map.len() - i,
        {
            r.push(self.verbal_map[i].0);
            i = i + 1;
        }
        r
    }

    /// The slot of one suffix; the verbal reading is preferred for suffixes
    /// of both paradigms.
    pub fn classify(&self, suffix: &str) -> (r: SuffixSlot)
        requires
            self.wf(),
        ensures
            r == slot_of(suffix@),
    {
        if let Some(v) = find_slot(&self.verbal_map, suffix) {
            return SuffixSlot::Verbal(v);
        }
        if let Some(n) = find_slot(&self.nominal_map, suffix) {
            return SuffixSlot::Nominal(n);
        }
        SuffixSlot::Unknown
    }

    /// Whether `suffix` is in both paradigms.
    fn ambiguous(&self, suffix: &str) -> (r: bool)
        requires
            self.wf(),
        ensures
            r == is_ambiguous(suffix@),
    {
        find_slot(&self.nominal_map, suffix).is_some() && find_slot(&self.verbal_map, suffix).is_some()
    }

    /// Whether a suffix sequence, root-adjacent first, is morphotactically
    /// valid. Where a suffix is ambiguous, the all-nominal and the
    /// all-verbal readings are both tried.
    pub fn validate_sequence(&self, suffixes: &[&str]) -> (r: bool)
        requires
            self.wf(),
        ensures
            r == valid_sequence(views(suffixes@)),
    {
        let ghost sfx = views(suffixes@);
        if suffixes.len() == 0 {
            return true;
        }
        let mut has_ambiguous = false;
        let mut i: usize = 0;
        while i < suffixes.len()
            invariant
                self.wf(),
                sfx == views(suffixes@),
                i <= suffixes@.len(),
                has_ambiguous == exists|j: int| 0 <= j < i && #[trigger] is_ambiguous(sfx[j]),
            decreases suffixes.len() - i,
        {
            assert(sfx[i as int] == suffixes@[i as int]@);
            if self.ambiguous(suffixes[i]) {
                has_ambiguous = true;
            }
            i = i + 1;
        }
        if has_ambiguous {
            let nominal_valid = self.try_validate_as_nominal(suffixes);
            let verbal_valid = self.try_validate_as_verbal(suffixes);
            return nominal_valid || verbal_valid;
        }
        let mut slots: Vec<SuffixSlot> = Vec::new();
        let mut any_unknown_slot = false;
        let mut all_nominal = true;
        let mut all_verbal = true;
        let mut i: usize = 0;
        while i < suffixes.len()
            invariant
                self.wf(),
                sfx == views(suffixes@),
                i <= suffixes@.len(),
                slots@.len() == i,
                forall|j: int| 0 <= j < i ==> slots@[j] == #[trigger] slot_of(sfx[j]),
                any_unknown_slot == exists|j: int| 0 <= j < i && (#[trigger] slot_of(sfx[j])) is Unknown,
                all_nominal == forall|j: int| 0 <= j < i ==> (#[trigger] slot_of(sfx[j])) is Nominal,
                all_verbal == forall|j: int| 0 <= j < i ==> (#[trigger] slot_of(sfx[j])) is Verbal,
            decreases suffixes.len() - i,
        {
            assert(sfx[i as int] == suffixes@[i as int]@);
            let slot = self.classify(suffixes[i]);
            match slot {
                SuffixSlot::Unknown => { any_unknown_slot = true; all_nominal = false; all_verbal = false; },
                SuffixSlot::Nominal(_) => { all_verbal = false; },
                SuffixSlot::Verbal(_) => { all_nominal = false; },
            }
            slots.push(slot);
            i = i + 1;
        }
        proof {
            assert(!any_ambiguous(sfx));
            assert(sfx.len() > 0);
            assert(!is_ambiguous(sfx[0]));
        }
        if any_unknown_slot {
            return true;
        }
        if !all_nominal && !all_verbal {
            proof {
                if nominal_monotone(sfx) {
                    assert forall|j: int| 0 <= j < sfx.len() implies (#[trigger] slot_of(sfx[j])) is Nominal by {
                        assert(nominal_slot_of(sfx[j]) is Some);
                        assert(!is_ambiguous(sfx[j]));
                    }
                }
                if verbal_monotone(sfx) {
                    assert forall|j: int| 0 <= j < sfx.len() implies (#[trigger] slot_of(sfx[j])) is Verbal by {
                        assert(verbal_slot_of(sfx[j]) is Some);
                    }
                }
            }
            return false;
        }
        if all_nominal {
            proof {
                assert forall|j: int| 0 <= j < sfx.len() implies (#[trigger] nominal_slot_of(sfx[j])) is Some
                    && slots@[j] == SuffixSlot::Nominal(nominal_slot_of(sfx[j])->0) by {
                    assert(slot_of(sfx[j]) is Nominal);
                }
                lemma_nominal_reading(sfx, slots@);
                assert(slot_of(sfx[0]) is Nominal);
                assert(verbal_slot_of(sfx[0]) is None);
                assert(!any_unknown(sfx));
            }
            self.validate_nominal_sequence(slots.as_slice())
        } else {
            proof {
                assert forall|j: int| 0 <= j < sfx.len() implies (#[trigger] verbal_slot_of(sfx[j])) is Some
                    && slots@[j] == SuffixSlot::Verbal(verbal_slot_of(sfx[j])->0) by {
                    assert(slot_of(sfx[j]) is Verbal);
                }
                lemma_verbal_reading(sfx, slots@);
                assert(slot_of(sfx[0]) is Verbal);
                assert(!is_ambiguous(sfx[0]));
                assert(nominal_slot_of(sfx[0]) is None);
                assert(!any_unknown(sfx));
            }
            self.validate_verbal_sequence(slots.as_slice())
        }
    }

    /// Reads every suffix as nominal; false if one is not nominal or the
    /// slots go backwards.
    fn try_validate_as_nominal(&self, suffixes: &[&str]) -> (r: bool)
        requires
            self.wf(),
        ensures
            r == nominal_monotone(views(suffixes@)),
    {
        let ghost sfx = views(suffixes@);
        let mut slots: Vec<SuffixSlot> = Vec::new();
        let mut i: usize = 0;
        while i < suffixes.len()
            invariant
                self.wf(),
                sfx == views(suffixes@),
                i <= suffixes@.len(),
                slots@.len() == i,
                forall|j: int| 0 <= j < i ==> (#[trigger] nominal_slot_of(sfx[j])) is Some
                    && slots@[j] == SuffixSlot::Nominal(nominal_slot_of(sfx[j])->0),
            decreases suffixes.len() - i,
        {
            assert(sfx[i as int] == suffixes@[i as int]@);
            match find_slot(&self.nominal_map, suffixes[i]) {
                Some(slot) => slots.push(SuffixSlot::Nominal(slot)),
                None => {
                    assert(nominal_slot_of(sfx[i as int]) is None);
                    return false;
                },
            }
            i = i + 1;
        }
        proof {
            lemma_nominal_reading(sfx, slots@);
        }
        self.validate_nominal_sequence(slots.as_slice())
    }

    /// Reads every suffix as verbal; false if one is not verbal or the
    /// slots go backwards.
    fn try_validate_as_verbal(&self, suffixes: &[&str]) -> (r: bool)
        requires
            self.wf(),
        ensures
            r == verbal_monotone(views(suffixes@)),
    {
        let ghost sfx = views(suffixes@);
        let mut slots: Vec<SuffixSlot> = Vec::new();
        let mut i: usize = 0;
        while i < suffixes.len()
            invariant
                self.wf(),
                sfx == views(suffixes@),
                i <= suffixes@.len(),
                slots@.len() == i,
                forall|j: int| 0 <= j < i ==> (#[trigger] verbal_slot_of(sfx[j])) is Some
                    && slots@[j] == SuffixSlot::Verbal(verbal_slot_of(sfx[j])->0),
            decreases suffixes.len() - i,
        {
            assert(sfx[i as int] == suffixes@[i as int]@);
            match find_slot(&self.verbal_map, suffixes[i]) {
                Some(slot) => slots.push(SuffixSlot::Verbal(slot)),
                None => {
                    assert(verbal_slot_of(sfx[i as int]) is None);
                    return false;
                },
            }
            i = i + 1;
        }
        proof {
            lemma_verbal_reading(sfx, slots@);
        }
        self.validate_verbal_sequence(slots.as_slice())
    }

    /// Whether the nominal slots among `slots` never go backwards.
    fn validate_nominal_sequence(&self, slots: &[SuffixSlot]) -> (r: bool)
        ensures
            r == nominal_slots_ordered(slots@),
    {
        let mut last_slot_rank: usize = 0;
        let mut k: usize = 0;
        while k < slots.len()
            invariant
                k <= slots@.len(),
                nominal_slots_ordered(slots@.subrange(0, k as int)),
                forall|i: int| 0 <= i < k && slots@[i] is Nominal ==> #[trigger] slot_nominal_rank(slots@[i]) <= last_slot_rank,
                last_slot_rank == 0 || exists|i: int| 0 <= i < k && slots@[i] is Nominal && #[trigger] slot_nominal_rank(slots@[i]) == last_slot_rank,
            decreases slots.len() - k,
        {
            if let SuffixSlot::Nominal(nominal_slot) = slots[k] {
                let current_rank = nominal_slot.rank();
                if current_rank < last_slot_rank {
                    proof {
                        let i = choose|i: int| 0 <= i < k && slots@[i] is Nominal && #[trigger] slot_nominal_rank(slots@[i]) == last_slot_rank;
                        assert(slot_nominal_rank(slots@[k as int]) == current_rank);
                        assert(!(slot_nominal_rank(slots@[i]) <= slot_nominal_rank(slots@[k as int])));
                    }
                    return false;
                }
                proof {
                    assert(slot_nominal_rank(slots@[k as int]) == current_rank);
                }
                last_slot_rank = current_rank;
            }
            proof {
                let p = slots@.subrange(0, k + 1);
                assert forall|i: int, j: int| 0 <= i < j < p.len() && p[i] is Nominal && p[j] is Nominal
                    implies #[trigger] slot_nominal_rank(p[i]) <= #[trigger] slot_nominal_rank(p[j]) by {
                    assert(p[i] == slots@[i]);
                    assert(p[j] == slots@[j]);
                    if j < k {
                        assert(slots@.subrange(0, k as int)[i] == slots@[i]);
                        assert(slots@.subrange(0, k as int)[j] == slots@[j]);
                    }
                }
            }
            k = k + 1;
        }
        assert(slots@.subrange(0, slots@.len() as int) =~= slots@);
        true
    }

    /// Whether the verbal slots among `slots` never go backwards.
    fn validate_verbal_sequence(&self, slots: &[SuffixSlot]) -> (r: bool)
        ensures
            r == verbal_slots_ordered(slots@),
    {
        let mut last_slot_rank: usize = 0;
        let mut k: usize = 0;
        while k < slots.len()
            invariant
                k <= slots@.len(),
                verbal_slots_ordered(slots@.subrange(0, k as int)),
                forall|i: int| 0 <= i < k && slots@[i] is Verbal ==> #[trigger] slot_verbal_rank(slots@[i]) <= last_slot_rank,
                last_slot_rank == 0 || exists|i: int| 0 <= i < k && slots@[i] is Verbal && #[trigger] slot_verbal_rank(slots@[i]) == last_slot_rank,
            decreases slots.len() - k,
        {
            if let SuffixSlot::Verbal(verbal_slot) = slots[k] {
                let current_rank = verbal_slot.rank();
                if current_rank < last_slot_rank {
                    proof {
                        let i = choose|i: int| 0 <= i < k && slots@[i] is Verbal && #[trigger] slot_verbal_rank(slots@[i]) == last_slot_rank;
                        assert(slot_verbal_rank(slots@[k as int]) == current_rank);
                        assert(!(slot_verbal_rank(slots@[i]) <= slot_verbal_rank(slots@[k as int])));
                    }
                    return false;
                }
                proof {
                    assert(slot_verbal_rank(slots@[k as int]) == current_rank);
                }
                last_slot_rank = current_rank;
            }
            proof {
                let p = slots@.subrange(0, k + 1);
                assert forall|i: int, j: int| 0 <= i < j < p.len() && p[i] is Verbal && p[j] is Verbal
                    implies #[trigger] slot_verbal_rank(p[i]) <= #[trigger] slot_verbal_rank(p[j]) by {
                    assert(p[i] == slots@[i]);
                    assert(p[j] == slots@[j]);
                    if j < k {
                        assert(slots@.subrange(0, k as int)[i] == slots@[i]);
                        assert(slots@.subrange(0, k as int)[j] == slots@[j]);
                    }
                }
            }
            k = k + 1;
        }
        assert(slots@.subrange(0, slots@.len() as int) =~= slots@);
        true
    }
}

impl Default for MorphotacticClassifier {
    fn default() -> (r: Self)
        ensures
            r.wf(),
    {
        Self::new()
    }
}

} // verus!
