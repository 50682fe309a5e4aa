//! The suffix inventory of the stripper: compound suffixes, peeled whole,
//! and the single nominal and verbal suffixes, tried longest first.

use vstd::prelude::*;
use vstd::string::StrSliceExecFns;
use crate::morphotactics::{nominal_table, verbal_table, views, MorphotacticClassifier};
use crate::text::str_eq;

verus! {

/// Frequent multi-morpheme clusters (negation + past + person, future +
/// person, plural + case, ...), peeled in one step.
pub open spec fn compound_suffixes() -> Seq<&'static str> {
    seq![
        "madım", "medim", "madın", "medin", "madı", "medi", "acağım", "eceğim", "lardan",
        "lerden", "larda", "lerde", "ların", "lerin", "ları", "leri",
    ]
}

/// The single nominal suffixes, in table order.
pub open spec fn nominal_suffixes() -> Seq<&'static str> {
    nominal_table().map_values(|e: (&'static str, crate::morphotactics::NominalSlot)| e.0)
}

/// The single verbal suffixes, in table order.
pub open spec fn verbal_suffixes() -> Seq<&'static str> {
    verbal_table().map_values(|e: (&'static str, crate::morphotactics::VerbalSlot)| e.0)
}

/// `sorted` with `x` placed after every element at least as long as `x`
/// and before the shorter ones that end it.
pub open spec fn insert_by_length(sorted: Seq<Seq<char>>, x: Seq<char>) -> Seq<Seq<char>>
    decreases sorted.len(),
{
    if sorted.len() == 0 || sorted.last().len() >= x.len() {
        sorted.push(x)
    } else {
        insert_by_length(sorted.drop_last(), x).push(sorted.last())
    }
}

/// `s` ordered by length, longest first; equal lengths keep their order.
pub open spec fn longest_first(s: Seq<Seq<char>>) -> Seq<Seq<char>>
    decreases s.len(),
{
    if s.len() == 0 {
        s
    } else {
        insert_by_length(longest_first(s.drop_last()), s.last())
    }
}

/// `s` with every repeated element after its first occurrence removed.
pub open spec fn without_repeats(s: Seq<Seq<char>>) -> Seq<Seq<char>>
    decreases s.len(),
{
    if s.len() == 0 {
        s
    } else {
        let d = without_repeats(s.drop_last());
        if d.contains(s.last()) {
            d
        } else {
            d.push(s.last())
        }
    }
}

/// The single suffixes in the order the stripper tries them: nominal and
/// verbal together, longest first, each once.
pub open spec fn single_inventory() -> Seq<Seq<char>> {
    without_repeats(longest_first(views(nominal_suffixes() + verbal_suffixes())))
}

/// The compound suffixes.
pub fn compound_suffix_list() -> (r: Vec<&'static str>)
    ensures
        r@ == compound_suffixes(),
{
    let r = vec![
        "madım", "medim", "madın", "medin", "madı", "medi", "acağım", "eceğim", "lardan",
        "lerden", "larda", "lerde", "ların", "lerin", "ları", "leri",
    ];
    assert(r@ =~= compound_suffixes());
    r
}

/// Inserts `x` into `v` after every element at least as long.
fn insert_by_len(v: &mut Vec<&'static str>, x: &'static str)
    ensures
        views(final(v)@) == insert_by_length(views(old(v)@), x@),
{
    let ghost s = views(v@);
    let xl = x.unicode_len();
    let mut k: usize = v.len();
    assert(s.subrange(0, k as int) =~= s);
    assert(s.subrange(k as int, s.len() as int) =~= Seq::<Seq<char>>::empty());
    loop
        invariant
            s == views(v@),
            xl == x@.len(),
            k <= v@.len(),
            insert_by_length(s, x@) == insert_by_length(s.subrange(0, k as int), x@) + s.subrange(
                k as int,
                s.len() as int,
            ),
        ensures
            k == 0 || v@[k - 1]@.len() >= x@.len(),
        decreases k,
    {
        if k == 0 {
            break;
        }
        if v[k - 1].unicode_len() >= xl {
            break;
        }
        proof {
            let p = s.subrange(0, k as int);
            assert(p.last() == v@[k - 1]@);
            assert(p.drop_last() =~= s.subrange(0, k - 1));
            assert(s.subrange(k - 1, s.len() as int) =~= seq![p.last()] + s.subrange(k as int, s.len() as int));
            assert(insert_by_length(s.subrange(0, k - 1), x@).push(p.last()) + s.subrange(k as int, s.len() as int)
                =~= insert_by_length(s.subrange(0, k - 1), x@) + s.subrange(k - 1, s.len() as int));
        }
        k = k - 1;
    }
    proof {
        let p = s.subrange(0, k as int);
        if k > 0 {
            assert(p.last() == v@[k - 1]@);
        }
        assert(insert_by_length(p, x@) == p.push(x@));
    }
    v.insert(k, x);
    assert(views(v@) =~= s.subrange(0, k as int).push(x@) + s.subrange(k as int, s.len() as int));
}

/// Whether `v` holds an element equal to `x`.
fn holds(v: &Vec<&'static str>, x: &str) -> (r: bool)
    ensures
        r == views(v@).contains(x@),
{
    let mut i: usize = 0;
    while i < v.len()
        invariant
            i <= v@.len(),
            forall|j: int| 0 <= j < i ==> views(v@)[j] != x@,
        decreases v.len() - i,
    {
        if str_eq(v[i], x) {
            assert(views(v@)[i as int] == x@);
            return true;
        }
        i = i + 1;
    }
    false
}

/// The single suffixes, longest first, each once.
pub fn single_suffix_list(classifier: &MorphotacticClassifier) -> (r: Vec<&'static str>)
    requires
        classifier.wf(),
    ensures
        views(r@) == single_inventory(),
{
    let mut all = classifier.nominal_suffixes();
    let mut verbal = classifier.verbal_suffixes();
    all.append(&mut verbal);
    let ghost a = views(all@);
    assert(a =~= views(nominal_suffixes() + verbal_suffixes()));
    let mut sorted: Vec<&'static str> = Vec::new();
    let mut i: usize = 0;
    assert(views(sorted@) =~= longest_first(a.subrange(0, 0)));
    while i < all.len()
        invariant
            a == views(all@),
            i <= all@.len(),
            views(sorted@) == longest_first(a.subrange(0, i as int)),
        decreases all.len() - i,
    {
        assert(a.subrange(0, i + 1).drop_last() =~= a.subrange(0, i as int));
        insert_by_len(&mut sorted, all[i]);
        i = i + 1;
    }
    assert(a.subrange(0, a.len() as int) =~= a);
    let ghost t = views(sorted@);
    let mut out: Vec<&'static str> = Vec::new();
    let mut j: usize = 0;
    assert(views(out@) =~= without_repeats(t.subrange(0, 0)));
    while j < sorted.len()
        invariant
            t == views(sorted@),
            j <= sorted@.len(),
            views(out@) == without_repeats(t.subrange(0, j as int)),
        decreases sorted.len() - j,
    {
        assert(t.subrange(0, j + 1).drop_last() =~= t.subrange(0, j as int));
        if !holds(&out, sorted[j]) {
            let ghost before = out@;
            out.push(sorted[j]);
            assert(views(out@) =~= views(before).push(sorted@[j as int]@));
        }
        j = j + 1;
    }
    assert(t.subrange(0, t.len() as int) =~= t);
    out
}

} // verus!
