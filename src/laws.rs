//! Laws of the validated stripper, proved over its specification.

use vstd::prelude::*;
use crate::lemma_dict::{
    embedded_records, lemma_lookup_has_record, lemma_records_well_formed, lemmas_of, lines_of, lookup_in,
    LEMMA_DATA,
};
use crate::lemmatizer::{
    first_compound, first_single, harmony_gate, lemma_first_compound_ok, lemma_first_single_ok,
    lemmatize, lemmatize_trace, peel, root_ok, single_pass, ITERATION_CAP,
};
use crate::inventory::{compound_suffixes, single_inventory};
use crate::morphotactics::{valid_sequence, views};
use crate::root_validator::{vowel_count, RootValidator};

verus! {

/// The concatenation of `p`, first element first.
pub open spec fn joined(p: Seq<Seq<char>>) -> Seq<char>
    decreases p.len(),
{
    if p.len() == 0 {
        seq![]
    } else {
        p[0] + joined(p.drop_first())
    }
}

pub open spec fn min_nat(a: nat, b: nat) -> nat {
    if a <= b {
        a
    } else {
        b
    }
}

/// What holds of every state of the stripping search on `w`: the stem and
/// the peeled suffixes rebuild `w`, the suffixes form a valid sequence, each
/// passed the harmony gate against the stem it was peeled from, and the stem
/// is `w` or a valid root.
pub open spec fn search_state_ok(
    roots: Seq<Seq<char>>,
    v: RootValidator,
    check: bool,
    w: Seq<char>,
    c: Seq<char>,
    peeled: Seq<Seq<char>>,
) -> bool {
    &&& c + joined(peeled) == w
    &&& (peeled.len() == 0 || valid_sequence(peeled))
    &&& forall|i: int|
        0 <= i < peeled.len() ==> harmony_gate(check, c + #[trigger] joined(peeled.subrange(0, i)), peeled[i])
    &&& (c == w || root_ok(roots, v, c))
}

proof fn lemma_joined_cons(s: Seq<char>, p: Seq<Seq<char>>)
    ensures
        joined(seq![s] + p) == s + joined(p),
{
    let q = seq![s] + p;
    assert(q[0] == s);
    assert(q.drop_first() =~= p);
}

/// The search keeps `search_state_ok`, and each round peels at most one
/// suffix.
proof fn lemma_single_pass_ok(
    roots: Seq<Seq<char>>,
    v: RootValidator,
    check: bool,
    singles: Seq<Seq<char>>,
    w: Seq<char>,
    c: Seq<char>,
    peeled: Seq<Seq<char>>,
    fuel: nat,
)
    requires
        search_state_ok(roots, v, check, w, c, peeled),
    ensures
        search_state_ok(
            roots,
            v,
            check,
            w,
            single_pass(roots, v, check, singles, c, peeled, fuel).0,
            single_pass(roots, v, check, singles, c, peeled, fuel).1,
        ),
        single_pass(roots, v, check, singles, c, peeled, fuel).1.len() <= peeled.len() + fuel,
    decreases fuel,
{
    if fuel == 0 || roots.contains(c) {
    } else {
        lemma_first_single_ok(roots, v, check, c, peeled, singles);
        match first_single(roots, v, check, c, peeled, singles) {
            None => {},
            Some(s) => {
                let c2 = peel(c, s);
                let p2 = seq![s] + peeled;
                assert(c =~= c2 + s);
                lemma_joined_cons(s, peeled);
                assert(c2 + joined(p2) =~= c + joined(peeled));
                assert forall|i: int| 0 <= i < p2.len() implies harmony_gate(
                    check,
                    c2 + #[trigger] joined(p2.subrange(0, i)),
                    p2[i],
                ) by {
                    if i == 0 {
                        assert(p2.subrange(0, 0) =~= Seq::<Seq<char>>::empty());
                        assert(c2 + joined(p2.subrange(0, 0)) =~= c2);
                    } else {
                        assert(p2.subrange(0, i) =~= seq![s] + peeled.subrange(0, i - 1));
                        lemma_joined_cons(s, peeled.subrange(0, i - 1));
                        assert(c2 + joined(p2.subrange(0, i)) =~= c + joined(peeled.subrange(0, i - 1)));
                        assert(p2[i] == peeled[i - 1]);
                    }
                }
                lemma_single_pass_ok(roots, v, check, singles, w, c2, p2, (fuel - 1) as nat);
            },
        }
    }
}

/// The state after the compound pass.
proof fn lemma_start_ok(roots: Seq<Seq<char>>, v: RootValidator, check: bool, w: Seq<char>, list: Seq<Seq<char>>)
    ensures
        first_compound(roots, v, check, w, list) matches Some(s) ==> search_state_ok(
            roots,
            v,
            check,
            w,
            peel(w, s),
            seq![s],
        ),
        search_state_ok(roots, v, check, w, w, seq![]),
{
    assert(joined(Seq::<Seq<char>>::empty()) == Seq::<char>::empty());
    assert(w + joined(Seq::<Seq<char>>::empty()) =~= w);
    lemma_first_compound_ok(roots, v, check, w, list);
    if let Some(s) = first_compound(roots, v, check, w, list) {
        let p = seq![s];
        lemma_joined_cons(s, Seq::<Seq<char>>::empty());
        assert(seq![s] + Seq::<Seq<char>>::empty() =~= p);
        assert(w =~= peel(w, s) + s);
        assert(peel(w, s) + joined(p) =~= w);
        assert forall|i: int| 0 <= i < p.len() implies harmony_gate(
            check,
            peel(w, s) + #[trigger] joined(p.subrange(0, i)),
            p[i],
        ) by {
            assert(p.subrange(0, 0) =~= Seq::<Seq<char>>::empty());
            assert(peel(w, s) + joined(p.subrange(0, 0)) =~= peel(w, s));
        }
    }
}

/// A lemma recorded in a dictionary is one of its roots.
proof fn lemma_lookup_is_root(e: Seq<(Seq<char>, Seq<char>)>, w: Seq<char>)
    ensures
        lookup_in(e, w) matches Some(l) ==> lemmas_of(e).contains(l),
    decreases e.len(),
{
    if e.len() > 0 {
        if e.last().0 == w {
            assert(lemmas_of(e)[e.len() - 1] == e.last().1);
        } else {
            lemma_lookup_is_root(e.drop_last(), w);
            if let Some(l) = lookup_in(e, w) {
                let k = choose|k: int| 0 <= k < lemmas_of(e.drop_last()).len() && lemmas_of(e.drop_last())[k] == l;
                assert(lemmas_of(e)[k] == l);
            }
        }
    }
}

/// Whatever the search reached, unless the dictionary answered directly.
proof fn lemma_trace_ok(w: Seq<char>, strict: bool, min_root_length: usize, check: bool)
    ensures
        !(strict && lookup_in(embedded_records(), w) is Some) ==> search_state_ok(
            lemmas_of(embedded_records()),
            RootValidator { min_root_length, strict },
            check,
            w,
            lemmatize_trace(w, strict, min_root_length, check).0,
            lemmatize_trace(w, strict, min_root_length, check).1,
        ),
        lemmatize_trace(w, strict, min_root_length, check).1.len() <= ITERATION_CAP + 1,
{
    let e = embedded_records();
    let roots = lemmas_of(e);
    let v = RootValidator { min_root_length, strict };
    let compounds = views(compound_suffixes());
    let singles = single_inventory();
    lemma_start_ok(roots, v, check, w, compounds);
    if strict && lookup_in(e, w) is Some {
    } else if roots.contains(w) {
    } else {
        match first_compound(roots, v, check, w, compounds) {
            Some(s) => lemma_single_pass_ok(roots, v, check, singles, w, peel(w, s), seq![s], ITERATION_CAP as nat),
            None => lemma_single_pass_ok(roots, v, check, singles, w, w, seq![], ITERATION_CAP as nat),
        }
    }
}

/// Every lemma of the dictionary strips, in strict mode, to itself (unless
/// the dictionary also records it as an inflection of another lemma).
pub proof fn lemma_lemma_is_fixed_point(l: Seq<char>, min_root_length: usize, check: bool)
    requires
        lemmas_of(embedded_records()).contains(l),
        lookup_in(embedded_records(), l) is None || lookup_in(embedded_records(), l) == Some(l),
    ensures
        lemmatize(l, true, min_root_length, check) == l,
{
}

/// In strict mode an inflected form of the dictionary strips to its lemma.
pub proof fn lemma_inflection_round_trip(w: Seq<char>, l: Seq<char>, min_root_length: usize, check: bool)
    requires
        lookup_in(embedded_records(), w) == Some(l),
    ensures
        lemmatize(w, true, min_root_length, check) == l,
{
}

/// The stem is never shorter than both the input and the minimum root
/// length, except where the dictionary itself gives a shorter lemma.
pub proof fn lemma_minimum_length(w: Seq<char>, strict: bool, min_root_length: usize, check: bool)
    requires
        !(strict && lookup_in(embedded_records(), w) is Some && lookup_in(embedded_records(), w)->0.len()
            < min_nat(w.len(), min_root_length as nat)),
    ensures
        lemmatize(w, strict, min_root_length, check).len() >= min_nat(w.len(), min_root_length as nat),
{
    lemma_trace_ok(w, strict, min_root_length, check);
}

/// The search ends after at most one compound peel and `ITERATION_CAP`
/// single peels.
pub proof fn lemma_bounded_peels(w: Seq<char>, strict: bool, min_root_length: usize, check: bool)
    ensures
        lemmatize_trace(w, strict, min_root_length, check).1.len() <= ITERATION_CAP + 1,
{
    lemma_trace_ok(w, strict, min_root_length, check);
}

/// Each accepted peel passed the harmony gate against the stem it left:
/// the suffix harmonizes with that stem, or it is a fixed morpheme, or
/// harmony checking is off. The stem and the peeled suffixes rebuild the
/// input.
pub proof fn lemma_harmony_soundness(w: Seq<char>, strict: bool, min_root_length: usize, check: bool)
    ensures
        ({
            let (stem, peeled) = lemmatize_trace(w, strict, min_root_length, check);
            &&& forall|i: int|
                0 <= i < peeled.len() ==> harmony_gate(check, stem + #[trigger] joined(peeled.subrange(0, i)), peeled[i])
            &&& peeled.len() > 0 ==> stem + joined(peeled) == w
        }),
{
    lemma_trace_ok(w, strict, min_root_length, check);
}

/// The peeled suffixes, root-adjacent first, form a valid morphotactic
/// sequence.
pub proof fn lemma_morphotactic_soundness(w: Seq<char>, strict: bool, min_root_length: usize, check: bool)
    ensures
        valid_sequence(lemmatize_trace(w, strict, min_root_length, check).1),
{
    lemma_trace_ok(w, strict, min_root_length, check);
}

/// In strict mode the stem is a root of the dictionary or the input
/// unchanged.
pub proof fn lemma_strict_stem_is_root(w: Seq<char>, min_root_length: usize, check: bool)
    ensures
        lemmas_of(embedded_records()).contains(lemmatize(w, true, min_root_length, check))
            || lemmatize(w, true, min_root_length, check) == w,
{
    lemma_trace_ok(w, true, min_root_length, check);
    lemma_lookup_is_root(embedded_records(), w);
}

/// The empty word comes back empty, in either mode: no record has an
/// empty inflected form.
pub proof fn lemma_empty_word_unchanged(strict: bool, min_root_length: usize, check: bool)
    ensures
        lemmatize(Seq::<char>::empty(), strict, min_root_length, check) == Seq::<char>::empty(),
{
    let e = embedded_records();
    lemma_records_well_formed(lines_of(LEMMA_DATA@));
    lemma_lookup_has_record(e, Seq::<char>::empty());
    if lookup_in(e, Seq::<char>::empty()) is Some {
        let i = choose|i: int| 0 <= i < e.len() && (#[trigger] e[i]).0 == Seq::<char>::empty();
        assert(e[i].0.len() > 0);
    }
    lemma_short_word_unchanged(Seq::<char>::empty(), strict, min_root_length, check);
}

/// A word of at most one character comes back unchanged, unless the
/// dictionary answers for it in strict mode.
pub proof fn lemma_short_word_unchanged(w: Seq<char>, strict: bool, min_root_length: usize, check: bool)
    requires
        w.len() <= 1,
        !strict || lookup_in(embedded_records(), w) is None,
    ensures
        lemmatize(w, strict, min_root_length, check) == w,
{
    let roots = lemmas_of(embedded_records());
    let v = RootValidator { min_root_length, strict };
    lemma_first_compound_ok(roots, v, check, w, views(compound_suffixes()));
    lemma_first_single_ok(roots, v, check, w, seq![], single_inventory());
}

/// A prefix holds no more vowels than the whole.
proof fn lemma_vowel_count_prefix(s: Seq<char>, k: int)
    requires
        0 <= k <= s.len(),
    ensures
        vowel_count(s.subrange(0, k)) <= vowel_count(s),
    decreases s.len(),
{
    if k < s.len() {
        assert(s.drop_last().subrange(0, k) =~= s.subrange(0, k));
        lemma_vowel_count_prefix(s.drop_last(), k);
    } else {
        assert(s.subrange(0, k) =~= s);
    }
}

/// In lenient mode a word without vowels comes back unchanged: no stem cut
/// from it can pass the phonotactic check.
pub proof fn lemma_vowelless_word_unchanged(w: Seq<char>, min_root_length: usize, check: bool)
    requires
        vowel_count(w) == 0,
    ensures
        lemmatize(w, false, min_root_length, check) == w,
{
    let roots = lemmas_of(embedded_records());
    let v = RootValidator { min_root_length, strict: false };
    lemma_first_compound_ok(roots, v, check, w, views(compound_suffixes()));
    lemma_first_single_ok(roots, v, check, w, seq![], single_inventory());
    if let Some(s) = first_compound(roots, v, check, w, views(compound_suffixes())) {
        lemma_vowel_count_prefix(w, w.len() - s.len());
    }
    if let Some(s) = first_single(roots, v, check, w, seq![], single_inventory()) {
        lemma_vowel_count_prefix(w, w.len() - s.len());
    }
}

} // verus!
