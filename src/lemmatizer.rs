//! The validated stripper.
//!
//! A word is first looked up in the dictionary (strict mode). Failing that,
//! and unless the word is itself a valid root, one compound suffix may be
//! peeled, then single suffixes one at a time, longest first, for at most
//! `ITERATION_CAP` rounds. A peel is taken only when the remaining stem is a
//! valid root, the suffix harmonizes with it (unless harmony is off or the
//! suffix is fixed), and the peeled suffixes, root-adjacent first, form a
//! valid morphotactic sequence.
//!
//! Where a word is both a valid root and could be peeled further, the
//! dictionary wins: a valid root is returned as it is.

use vstd::prelude::*;
use vstd::string::StrSliceExecFns;
use crate::inventory::{
    compound_suffix_list, compound_suffixes, single_inventory,
    single_suffix_list,
};
use crate::lemma_dict::{embedded_records, lemmas_of, lookup_in, LemmaDictionary, ValidRoots};
use crate::morphotactics::{valid_sequence, views, MorphotacticClassifier};
use crate::root_validator::{lower_of, lowercase, RootValidator};
use crate::text::{has_suffix, str_ends_with};
use crate::vowel_harmony::{check_vowel_harmony, harmony_ok};

verus! {

/// The most single-suffix rounds the stripper runs.
pub const ITERATION_CAP: usize = 10;

/// `c` with its last `s.len()` characters removed.
pub open spec fn peel(c: Seq<char>, s: Seq<char>) -> Seq<char> {
    c.subrange(0, c.len() - s.len())
}

/// `s` is a non-empty suffix of `c` that leaves a non-empty stem.
pub open spec fn peelable(c: Seq<char>, s: Seq<char>) -> bool {
    0 < s.len() < c.len() && has_suffix(c, s)
}

/// The harmony gate: off, or the harmony predicate (a fixed morpheme, or
/// a harmonic suffix) holds.
pub open spec fn harmony_gate(check: bool, stem: Seq<char>, s: Seq<char>) -> bool {
    !check || harmony_ok(stem, s)
}

/// `c` passes the root validator `v`.
pub open spec fn root_ok(roots: Seq<Seq<char>>, v: RootValidator, c: Seq<char>) -> bool {
    v.accepts(c, lower_of(c), roots)
}

/// A compound suffix `s` may be peeled off `c`.
pub open spec fn compound_ok(
    roots: Seq<Seq<char>>,
    v: RootValidator,
    check: bool,
    c: Seq<char>,
    s: Seq<char>,
) -> bool {
    &&& peelable(c, s)
    &&& root_ok(roots, v, peel(c, s))
    &&& harmony_gate(check, peel(c, s), s)
    &&& valid_sequence(seq![s])
}

/// A single suffix `s` may be peeled off `c`, whose suffixes peeled so far
/// are `peeled` (root-adjacent first).
pub open spec fn single_ok(
    roots: Seq<Seq<char>>,
    v: RootValidator,
    check: bool,
    c: Seq<char>,
    peeled: Seq<Seq<char>>,
    s: Seq<char>,
) -> bool {
    &&& peelable(c, s)
    &&& peel(c, s).len() >= v.min_root_length
    &&& valid_sequence(seq![s] + peeled)
    &&& root_ok(roots, v, peel(c, s))
    &&& harmony_gate(check, peel(c, s), s)
}

/// The first compound suffix of `list` that may be peeled off `c`.
pub open spec fn first_compound(
    roots: Seq<Seq<char>>,
    v: RootValidator,
    check: bool,
    c: Seq<char>,
    list: Seq<Seq<char>>,
) -> Option<Seq<char>>
    decreases list.len(),
{
    if list.len() == 0 {
        None
    } else if compound_ok(roots, v, check, c, list[0]) {
        Some(list[0])
    } else {
        first_compound(roots, v, check, c, list.drop_first())
    }
}

/// The first single suffix of `list` that may be peeled off `c`.
pub open spec fn first_single(
    roots: Seq<Seq<char>>,
    v: RootValidator,
    check: bool,
    c: Seq<char>,
    peeled: Seq<Seq<char>>,
    list: Seq<Seq<char>>,
) -> Option<Seq<char>>
    decreases list.len(),
{
    if list.len() == 0 {
        None
    } else if single_ok(roots, v, check, c, peeled, list[0]) {
        Some(list[0])
    } else {
        first_single(roots, v, check, c, peeled, list.drop_first())
    }
}

/// Up to `fuel` rounds of single-suffix peeling from `c`: the final stem
/// and all peeled suffixes, root-adjacent first. A round stops the search
/// when `c` is a valid root or nothing can be peeled.
pub open spec fn single_pass(
    roots: Seq<Seq<char>>,
    v: RootValidator,
    check: bool,
    singles: Seq<Seq<char>>,
    c: Seq<char>,
    peeled: Seq<Seq<char>>,
    fuel: nat,
) -> (Seq<char>, Seq<Seq<char>>)
    decreases fuel,
{
    if fuel == 0 || roots.contains(c) {
        (c, peeled)
    } else {
        match first_single(roots, v, check, c, peeled, singles) {
            None => (c, peeled),
            Some(s) => single_pass(roots, v, check, singles, peel(c, s), seq![s] + peeled, (fuel - 1) as nat),
        }
    }
}

/// The stem and the peeled suffixes (root-adjacent first) of `w` under the
/// dictionary records `e`, the suffix lists, the validator `v` (whose mode
/// and minimum length are the caller's) and the harmony switch.
pub open spec fn strip_trace(
    e: Seq<(Seq<char>, Seq<char>)>,
    compounds: Seq<Seq<char>>,
    singles: Seq<Seq<char>>,
    v: RootValidator,
    check: bool,
    w: Seq<char>,
) -> (Seq<char>, Seq<Seq<char>>) {
    let roots = lemmas_of(e);
    if v.strict && lookup_in(e, w) is Some {
        (lookup_in(e, w)->0, seq![])
    } else if roots.contains(w) {
        (w, seq![])
    } else {
        let (c, p) = match first_compound(roots, v, check, w, compounds) {
            Some(s) => (peel(w, s), seq![s]),
            None => (w, seq![]),
        };
        single_pass(roots, v, check, singles, c, p, ITERATION_CAP as nat)
    }
}

/// The stripping trace of `w` with the embedded dictionary and suffix
/// inventory.
pub open spec fn lemmatize_trace(w: Seq<char>, strict: bool, min_root_length: usize, check: bool) -> (
    Seq<char>,
    Seq<Seq<char>>,
) {
    strip_trace(
        embedded_records(),
        views(compound_suffixes()),
        single_inventory(),
        RootValidator { min_root_length, strict },
        check,
        w,
    )
}

/// The stem that the validated stripper returns for `w`.
pub open spec fn lemmatize(w: Seq<char>, strict: bool, min_root_length: usize, check: bool) -> Seq<char> {
    lemmatize_trace(w, strict, min_root_length, check).0
}

/// The compound suffix chosen, if any, may be peeled.
pub proof fn lemma_first_compound_ok(
    roots: Seq<Seq<char>>,
    v: RootValidator,
    check: bool,
    c: Seq<char>,
    list: Seq<Seq<char>>,
)
    ensures
        first_compound(roots, v, check, c, list) matches Some(s) ==> compound_ok(roots, v, check, c, s),
    decreases list.len(),
{
    if list.len() > 0 && !compound_ok(roots, v, check, c, list[0]) {
        lemma_first_compound_ok(roots, v, check, c, list.drop_first());
    }
}

/// The single suffix chosen, if any, may be peeled.
pub proof fn lemma_first_single_ok(
    roots: Seq<Seq<char>>,
    v: RootValidator,
    check: bool,
    c: Seq<char>,
    peeled: Seq<Seq<char>>,
    list: Seq<Seq<char>>,
)
    ensures
        first_single(roots, v, check, c, peeled, list) matches Some(s) ==> single_ok(roots, v, check, c, peeled, s),
    decreases list.len(),
{
    if list.len() > 0 && !single_ok(roots, v, check, c, peeled, list[0]) {
        lemma_first_single_ok(roots, v, check, c, peeled, list.drop_first());
    }
}

/// The state shared by calls of the validated stripper: the dictionary, its
/// roots, the morphotactic classifier and the suffix lists.
pub struct Lemmatizer {
    dict: LemmaDictionary,
    roots: ValidRoots,
    classifier: MorphotacticClassifier,
    compounds: Vec<&'static str>,
    singles: Vec<&'static str>,
}

impl Lemmatizer {
    pub closed spec fn wf(&self) -> bool {
        &&& self.dict@ == embedded_records()
        &&& self.roots@ == lemmas_of(self.dict@)
        &&& self.classifier.wf()
        &&& self.compounds@ == compound_suffixes()
        &&& views(self.singles@) == single_inventory()
    }

    /// Builds the dictionary, the classifier and the suffix lists.
    pub fn new() -> (r: Self)
        ensures
            r.wf(),
    {
        let dict = LemmaDictionary::embedded();
        let roots = dict.roots();
        let classifier = MorphotacticClassifier::new();
        let compounds = compound_suffix_list();
        let singles = single_suffix_list(&classifier);
        Lemmatizer { dict, roots, classifier, compounds, singles }
    }

    /// Whether the harmony gate lets `s` follow `stem`.
    fn harmony_passes(check: bool, stem: &str, s: &str) -> (r: bool)
        ensures
            r == harmony_gate(check, stem@, s@),
    {
        !check || check_vowel_harmony(stem, s)
    }

    /// Whether `c` passes the validator `v`.
    fn root_passes(&self, v: &RootValidator, c: &str) -> (r: bool)
        requires
            self.wf(),
        ensures
            r == root_ok(lemmas_of(embedded_records()), *v, c@),
    {
        let lower = lowercase(c);
        v.is_valid_root_lowered(c, lower.as_str(), &self.roots)
    }

    /// Whether `s` is a non-empty suffix of `c` that leaves a non-empty
    /// stem; if so, the stem.
    fn peel_off<'a>(c: &'a str, s: &str) -> (r: Option<&'a str>)
        ensures
            r is Some <==> peelable(c@, s@),
            r matches Some(p) ==> p@ == peel(c@, s@),
    {
        let cn = c.unicode_len();
        let sn = s.unicode_len();
        if sn == 0 || sn >= cn || !str_ends_with(c, s) {
            return None;
        }
        Some(c.substring_char(0, cn - sn))
    }

    /// The first compound suffix that may be peeled off `w`.
    fn find_compound(&self, v: &RootValidator, check: bool, w: &str) -> (r: Option<&'static str>)
        requires
            self.wf(),
        ensures
            r matches Some(s) ==> first_compound(lemmas_of(embedded_records()), *v, check, w@, views(compound_suffixes())) == Some(s@),
            r is None ==> first_compound(lemmas_of(embedded_records()), *v, check, w@, views(compound_suffixes())) is None,
    {
        let ghost roots = lemmas_of(embedded_records());
        let ghost list = views(compound_suffixes());
        let mut i: usize = 0;
        assert(list.subrange(0, list.len() as int) =~= list);
        while i < self.compounds.len()
            invariant
                self.wf(),
                roots == lemmas_of(embedded_records()),
                list == views(self.compounds@),
                i <= self.compounds@.len(),
                first_compound(roots, *v, check, w@, list) == first_compound(
                    roots,
                    *v,
                    check,
                    w@,
                    list.subrange(i as int, list.len() as int),
                ),
            decreases self.compounds.len() - i,
        {
            let s = self.compounds[i];
            let ghost rest = list.subrange(i as int, list.len() as int);
            assert(rest.drop_first() =~= list.subrange(i + 1, list.len() as int));
            assert(rest[0] == s@);
            if let Some(p) = Self::peel_off(w, s) {
                let one = [s];
                let ok = self.root_passes(v, p) && Self::harmony_passes(check, p, s)
                    && self.classifier.validate_sequence(one.as_slice());
                assert(views(one@) =~= seq![s@]);
                if ok {
                    return Some(s);
                }
            }
            i = i + 1;
        }
        None
    }

    /// The first single suffix that may be peeled off `c`, given the
    /// suffixes peeled so far.
    fn find_single(&self, v: &RootValidator, check: bool, c: &str, peeled: &Vec<&'static str>) -> (r: Option<&'static str>)
        requires
            self.wf(),
        ensures
            r matches Some(s) ==> first_single(lemmas_of(embedded_records()), *v, check, c@, views(peeled@), single_inventory()) == Some(s@),
            r is None ==> first_single(lemmas_of(embedded_records()), *v, check, c@, views(peeled@), single_inventory()) is None,
    {
        let ghost roots = lemmas_of(embedded_records());
        let ghost list = single_inventory();
        let ghost pv = views(peeled@);
        let mut i: usize = 0;
        assert(list.subrange(0, list.len() as int) =~= list);
        while i < self.singles.len()
            invariant
                self.wf(),
                roots == lemmas_of(embedded_records()),
                list == views(self.singles@),
                pv == views(peeled@),
                i <= self.singles@.len(),
                first_single(roots, *v, check, c@, pv, list) == first_single(
                    roots,
                    *v,
                    check,
                    c@,
                    pv,
                    list.subrange(i as int, list.len() as int),
                ),
            decreases self.singles.len() - i,
        {
            let s = self.singles[i];
            let ghost rest = list.subrange(i as int, list.len() as int);
            assert(rest.drop_first() =~= list.subrange(i + 1, list.len() as int));
            assert(rest[0] == s@);
            if let Some(p) = Self::peel_off(c, s) {
                if p.unicode_len() >= v.min_root_length {
                    let mut sequence: Vec<&str> = Vec::new();
                    sequence.push(s);
                    let mut j: usize = 0;
                    while j < peeled.len()
                        invariant
                            pv == views(peeled@),
                            j <= peeled@.len(),
                            views(sequence@) =~= seq![s@] + pv.subrange(0, j as int),
                        decreases peeled.len() - j,
                    {
                        let ghost before = sequence@;
                        sequence.push(peeled[j]);
                        assert(views(sequence@) =~= views(before).push(pv[j as int]));
                        assert(pv.subrange(0, j + 1) =~= pv.subrange(0, j as int).push(pv[j as int]));
                        j = j + 1;
                    }
                    assert(pv.subrange(0, pv.len() as int) =~= pv);
                    let ok = self.classifier.validate_sequence(sequence.as_slice())
                        && self.root_passes(v, p) && Self::harmony_passes(check, p, s);
                    if ok {
                        return Some(s);
                    }
                }
            }
            i = i + 1;
        }
        None
    }

    /// The stem of `word`, found by the validated stripper.
    pub fn strip_validated(&self, word: &str, strict: bool, min_root_length: usize, check_harmony: bool) -> (r: String)
        requires
            self.wf(),
        ensures
            r@ == lemmatize(word@, strict, min_root_length, check_harmony),
    {
        let ghost e = embedded_records();
        let ghost roots = lemmas_of(e);
        let ghost singles = single_inventory();
        let v = RootValidator::new(min_root_length, strict);
        assert(v == RootValidator { min_root_length, strict });
        if strict {
            if let Some(l) = self.dict.lookup(word) {
                return l;
            }
        }
        if self.roots.contains(word) {
            return word.to_owned();
        }
        let mut cand: &str = word;
        let mut peeled: Vec<&'static str> = Vec::new();
        proof {
            lemma_first_compound_ok(roots, v, check_harmony, word@, views(compound_suffixes()));
        }
        if let Some(s) = self.find_compound(&v, check_harmony, word) {
            if let Some(p) = Self::peel_off(word, s) {
                cand = p;
                peeled.push(s);
            }
        }
        let ghost c0 = cand@;
        let ghost p0 = views(peeled@);
        assert(p0 =~= match first_compound(roots, v, check_harmony, word@, views(compound_suffixes())) {
            Some(s) => seq![s],
            None => Seq::<Seq<char>>::empty(),
        });
        let mut iter: usize = 0;
        while iter < ITERATION_CAP
            invariant
                self.wf(),
                roots == lemmas_of(e),
                e == embedded_records(),
                singles == single_inventory(),
                iter <= ITERATION_CAP,
                single_pass(roots, v, check_harmony, singles, cand@, views(peeled@), (ITERATION_CAP - iter) as nat)
                    == single_pass(roots, v, check_harmony, singles, c0, p0, ITERATION_CAP as nat),
                lemmatize(word@, strict, min_root_length, check_harmony) == single_pass(
                    roots,
                    v,
                    check_harmony,
                    singles,
                    c0,
                    p0,
                    ITERATION_CAP as nat,
                ).0,
            decreases ITERATION_CAP - iter,
        {
            if self.roots.contains(cand) {
                return cand.to_owned();
            }
            proof {
                lemma_first_single_ok(roots, v, check_harmony, cand@, views(peeled@), singles);
            }
            match self.find_single(&v, check_harmony, cand, &peeled) {
                None => {
                    return cand.to_owned();
                },
                Some(s) => {
                    match Self::peel_off(cand, s) {
                        Some(p) => {
                            let ghost before = views(peeled@);
                            peeled.insert(0, s);
                            assert(views(peeled@) =~= seq![s@] + before);
                            if self.roots.contains(p) {
                                assert(single_pass(roots, v, check_harmony, singles, p@, views(peeled@),
                                    (ITERATION_CAP - iter - 1) as nat).0 == p@);
                                return p.to_owned();
                            }
                            cand = p;
                        },
                        None => {
                            return cand.to_owned();
                        },
                    }
                },
            }
            iter = iter + 1;
        }
        // Every committed candidate passed the root validator, so the last
        // one is the best stem seen (the input when nothing was peeled).
        cand.to_owned()
    }
}

/// The stem of `word` under the validated stripper, with the embedded
/// dictionary: `strict` asks for dictionary roots, `min_root_length` bounds
/// the stem's length from below, `check_harmony` enforces vowel harmony.
pub fn strip_suffixes_validated(word: &str, strict: bool, min_root_length: usize, check_harmony: bool) -> (r: String)
    ensures
        r@ == lemmatize(word@, strict, min_root_length, check_harmony),
{
    let l = Lemmatizer::new();
    l.strip_validated(word, strict, min_root_length, check_harmony)
}

} // verus!
