//! The embedded lemma dictionary: one `inflected<TAB>lemma` record per
//! line, `#` comments and blank lines skipped, both fields trimmed, and a
//! line without a tab or with an empty field skipped as malformed. Its
//! lemmas form the set of valid roots.

use vstd::prelude::*;
use vstd::string::StrSliceExecFns;
use crate::morphotactics::views;
use crate::text::str_eq;

verus! {

/// The dictionary resource, compiled into the library.
pub const LEMMA_DATA: &'static str = "# inflected\tlemma
kitaplar\tkitap
kitabı\tkitap
kitaplardan\tkitap
evler\tev
evde\tev
evlerimizden\tev
geliyorum\tgel
geldim\tgel
gittim\tgit
gidiyor\tgit
okullar\tokul
masalar\tmasa
kalemler\tkalem
gözler\tgöz
yollar\tyol
adamlar\tadam
şehirler\tşehir
öğrenciler\töğrenci
telefonlar\ttelefon
bilgisayarlar\tbilgisayar
";

/// Index of the first occurrence of `c` in `s`.
pub open spec fn first_index_of(s: Seq<char>, c: char) -> Option<int> {
    if exists|i: int| 0 <= i < s.len() && s[i] == c {
        Some(choose|i: int| 0 <= i < s.len() && s[i] == c && forall|j: int| 0 <= j < i ==> s[j] != c)
    } else {
        None
    }
}

/// `line` without a final carriage return.
pub open spec fn without_cr(line: Seq<char>) -> Seq<char> {
    if line.len() > 0 && line.last() == '\r' {
        line.drop_last()
    } else {
        line
    }
}

/// The lines of `t`, as `str::lines` would give them: split after each `'\n'`,
/// a `'\r'` right before that `'\n'` dropped, no empty line after a final
/// `'\n'`.
#[verifier::opaque]
pub open spec fn lines_of(t: Seq<char>) -> Seq<Seq<char>>
    decreases t.len(),
{
    if t.len() == 0 {
        seq![]
    } else {
        match first_index_of(t, '\n') {
            None => seq![t],
            Some(k) => {
                let line = without_cr(t.subrange(0, k));
                if 0 <= k < t.len() {
                    seq![line] + lines_of(t.subrange(k + 1, t.len() as int))
                } else {
                    seq![line]
                }
            },
        }
    }
}

/// The characters of the Unicode White_Space property, which
/// `char::is_whitespace` tests.
pub open spec fn is_white_space(c: char) -> bool {
    ('\u{9}' <= c && c <= '\u{d}') || c == ' ' || c == '\u{85}' || c == '\u{a0}' || c == '\u{1680}'
        || ('\u{2000}' <= c && c <= '\u{200a}') || c == '\u{2028}' || c == '\u{2029}' || c == '\u{202f}'
        || c == '\u{205f}' || c == '\u{3000}'
}

/// `s` without its leading white space.
pub open spec fn trim_start(s: Seq<char>) -> Seq<char>
    decreases s.len(),
{
    if s.len() > 0 && is_white_space(s[0]) {
        trim_start(s.drop_first())
    } else {
        s
    }
}

/// `s` without its trailing white space.
pub open spec fn trim_end(s: Seq<char>) -> Seq<char>
    decreases s.len(),
{
    if s.len() > 0 && is_white_space(s.last()) {
        trim_end(s.drop_last())
    } else {
        s
    }
}

/// `s` without its leading and trailing white space, as `str::trim` gives
/// it.
pub open spec fn trimmed(s: Seq<char>) -> Seq<char> {
    trim_end(trim_start(s))
}

/// Relies on `str::trim`: `s` without leading and trailing characters of
/// the Unicode White_Space property.
#[verifier::external_body]
fn trim_str(s: &str) -> (r: &str)
    ensures
        r@ == trimmed(s@),
{
    s.trim()
}

/// The record that one line holds, if any: a blank line, a comment, a
/// line without a tab or with an empty field holds none.
pub open spec fn record_of(line: Seq<char>) -> Option<(Seq<char>, Seq<char>)> {
    let l = trimmed(line);
    if l.len() == 0 || l[0] == '#' {
        None
    } else {
        match first_index_of(l, '\t') {
            None => None,
            Some(k) => {
                let key = trimmed(l.subrange(0, k));
                let lemma = trimmed(l.subrange(k + 1, l.len() as int));
                if key.len() == 0 || lemma.len() == 0 {
                    None
                } else {
                    Some((key, lemma))
                }
            },
        }
    }
}

/// The records of a sequence of lines, in order.
pub open spec fn records_of(lines: Seq<Seq<char>>) -> Seq<(Seq<char>, Seq<char>)>
    decreases lines.len(),
{
    if lines.len() == 0 {
        seq![]
    } else {
        let rest = records_of(lines.drop_last());
        match record_of(lines.last()) {
            Some(e) => rest.push(e),
            None => rest,
        }
    }
}

/// Every record has a non-empty inflected form and a non-empty lemma.
pub open spec fn records_well_formed(e: Seq<(Seq<char>, Seq<char>)>) -> bool {
    forall|i: int| 0 <= i < e.len() ==> (#[trigger] e[i]).0.len() > 0 && e[i].1.len() > 0
}

/// The records of any sequence of lines are well formed.
pub proof fn lemma_records_well_formed(lines: Seq<Seq<char>>)
    ensures
        records_well_formed(records_of(lines)),
    decreases lines.len(),
{
    if lines.len() > 0 {
        lemma_records_well_formed(lines.drop_last());
    }
}

/// A word with a lemma is the inflected form of some record.
pub proof fn lemma_lookup_has_record(e: Seq<(Seq<char>, Seq<char>)>, w: Seq<char>)
    ensures
        lookup_in(e, w) is Some ==> exists|i: int| 0 <= i < e.len() && (#[trigger] e[i]).0 == w,
    decreases e.len(),
{
    if e.len() > 0 && e.last().0 != w {
        lemma_lookup_has_record(e.drop_last(), w);
        if lookup_in(e, w) is Some {
            let i = choose|i: int| 0 <= i < e.drop_last().len() && (#[trigger] e.drop_last()[i]).0 == w;
            assert(e[i] == e.drop_last()[i]);
        }
    }
}

/// The records of a dictionary text.
pub open spec fn parse_records(text: Seq<char>) -> Seq<(Seq<char>, Seq<char>)> {
    records_of(lines_of(text))
}

/// The records of the embedded dictionary.
pub open spec fn embedded_records() -> Seq<(Seq<char>, Seq<char>)> {
    parse_records(LEMMA_DATA@)
}

/// The lemma for `word`: that of its last record (a later record replaces
/// an earlier one).
pub open spec fn lookup_in(e: Seq<(Seq<char>, Seq<char>)>, word: Seq<char>) -> Option<Seq<char>>
    decreases e.len(),
{
    if e.len() == 0 {
        None
    } else if e.last().0 == word {
        Some(e.last().1)
    } else {
        lookup_in(e.drop_last(), word)
    }
}

/// The lemmas of a record sequence, in order.
pub open spec fn lemmas_of(e: Seq<(Seq<char>, Seq<char>)>) -> Seq<Seq<char>> {
    e.map_values(|r: (Seq<char>, Seq<char>)| r.1)
}

/// Finds the first `c` in `s`.
fn find_char(s: &str, c: char) -> (r: Option<usize>)
    ensures
        r matches Some(k) ==> k < s@.len() && first_index_of(s@, c) == Some(k as int),
        r is None ==> first_index_of(s@, c) is None,
{
    let n = s.unicode_len();
    let mut i: usize = 0;
    while i < n
        invariant
            n == s@.len(),
            i <= n,
            forall|j: int| 0 <= j < i ==> s@[j] != c,
        decreases n - i,
    {
        if s.get_char(i) == c {
            proof {
                let k = first_index_of(s@, c)->0;
                assert(first_index_of(s@, c) is Some);
                if k < i {
                } else if k > i {
                }
            }
            return Some(i);
        }
        i = i + 1;
    }
    None
}

/// One step of `lines_of`.
proof fn lemma_lines_of_step(t: Seq<char>, k: Option<int>)
    requires
        k == first_index_of(t, '\n'),
        k matches Some(i) ==> 0 <= i < t.len(),
    ensures
        t.len() == 0 ==> lines_of(t) == Seq::<Seq<char>>::empty(),
        t.len() > 0 && k is None ==> lines_of(t) == seq![t],
        k matches Some(i) ==> lines_of(t) == seq![without_cr(t.subrange(0, i))] + lines_of(
            t.subrange(i + 1, t.len() as int),
        ),
{
    reveal_with_fuel(lines_of, 1);
}

/// The lines of `text`, split as `lines_of` states.
pub fn split_lines<'a>(text: &'a str) -> (r: Vec<&'a str>)
    ensures
        views(r@) == lines_of(text@),
{
    let mut out: Vec<&'a str> = Vec::new();
    let mut rest: &'a str = text;
    assert(views(out@) + lines_of(rest@) =~= lines_of(text@));
    loop
        invariant
            views(out@) + lines_of(rest@) == lines_of(text@),
        decreases rest@.len(),
    {
        let n = rest.unicode_len();
        if n == 0 {
            proof {
                lemma_lines_of_step(rest@, first_index_of(rest@, '\n'));
            }
            assert(views(out@) + lines_of(rest@) =~= views(out@));
            return out;
        }
        let found = find_char(rest, '\n');
        let ghost before = views(out@);
        match found {
            None => {
                proof {
                    lemma_lines_of_step(rest@, None);
                }
                out.push(rest);
                assert(views(out@) =~= before + lines_of(rest@));
                return out;
            },
            Some(k) => {
                proof {
                    lemma_lines_of_step(rest@, Some(k as int));
                }
                let whole = rest.substring_char(0, k);
                let line = if k > 0 && whole.get_char(k - 1) == '\r' {
                    whole.substring_char(0, k - 1)
                } else {
                    whole
                };
                proof {
                    if k > 0 {
                        assert(whole@.drop_last() =~= whole@.subrange(0, k - 1));
                    }
                    assert(line@ == without_cr(whole@));
                }
                let next = rest.substring_char(k + 1, n);
                out.push(line);
                assert(views(out@) =~= before.push(line@));
                assert(views(out@) + lines_of(next@) =~= before + (seq![line@] + lines_of(next@)));
                rest = next;
            },
        }
    }
}

/// The record that one line holds, if any.
fn parse_line(line: &str) -> (r: Option<(String, String)>)
    ensures
        r matches Some(p) ==> record_of(line@) == Some((p.0@, p.1@)),
        r is None ==> record_of(line@) is None,
{
    let l = trim_str(line);
    let n = l.unicode_len();
    if n == 0 || l.get_char(0) == '#' {
        return None;
    }
    match find_char(l, '\t') {
        None => None,
        Some(k) => {
            let key = trim_str(l.substring_char(0, k));
            let lemma = trim_str(l.substring_char(k + 1, n));
            if key.unicode_len() == 0 || lemma.unicode_len() == 0 {
                return None;
            }
            Some((key.to_owned(), lemma.to_owned()))
        },
    }
}

/// A dictionary of inflected forms and their lemmas.
///
/// The records are kept in a `Vec` in file order rather than a `HashMap`:
/// vstd models `HashMap` lookups only for keys whose hashing and equality
/// it specifies, which `String` keys are not. `lookup` searches from the
/// end, so a later record replaces an earlier one as a map insert would.
pub struct LemmaDictionary {
    records: Vec<(String, String)>,
}

impl View for LemmaDictionary {
    type V = Seq<(Seq<char>, Seq<char>)>;

    closed spec fn view(&self) -> Seq<(Seq<char>, Seq<char>)> {
        self.records@.map_values(|r: (String, String)| (r.0@, r.1@))
    }
}

impl LemmaDictionary {
    /// Parses a dictionary text.
    pub fn parse(text: &str) -> (r: Self)
        ensures
            r@ == parse_records(text@),
    {
        let lines = split_lines(text);
        let ghost ls = views(lines@);
        let mut records: Vec<(String, String)> = Vec::new();
        let mut i: usize = 0;
        while i < lines.len()
            invariant
                ls == views(lines@),
                ls == lines_of(text@),
                i <= lines@.len(),
                records@.map_values(|r: (String, String)| (r.0@, r.1@)) == records_of(ls.subrange(0, i as int)),
            decreases lines.len() - i,
        {
            let ghost before = records@;
            assert(ls.subrange(0, i + 1).drop_last() =~= ls.subrange(0, i as int));
            assert(ls[i as int] == lines@[i as int]@);
            match parse_line(lines[i]) {
                Some(p) => {
                    records.push(p);
                    assert(records@.map_values(|r: (String, String)| (r.0@, r.1@)) =~= before.map_values(
                        |r: (String, String)| (r.0@, r.1@)).push((p.0@, p.1@)));
                },
                None => {},
            }
            i = i + 1;
        }
        assert(ls.subrange(0, ls.len() as int) =~= ls);
        LemmaDictionary { records }
    }

    /// The embedded dictionary.
    pub fn embedded() -> (r: Self)
        ensures
            r@ == embedded_records(),
    {
        Self::parse(LEMMA_DATA)
    }

    /// The lemma recorded for `word`, if any.
    pub fn lookup(&self, word: &str) -> (r: Option<String>)
        ensures
            r matches Some(l) ==> lookup_in(self@, word@) == Some(l@),
            r is None ==> lookup_in(self@, word@) is None,
    {
        let mut i: usize = self.records.len();
        assert(self@.subrange(0, i as int) =~= self@);
        while i > 0
            invariant
                i <= self.records@.len(),
                self@.len() == self.records@.len(),
                lookup_in(self@, word@) == lookup_in(self@.subrange(0, i as int), word@),
            decreases i,
        {
            let ghost p = self@.subrange(0, i as int);
            assert(p.drop_last() =~= self@.subrange(0, i - 1));
            assert(p.last() == (self.records@[i - 1].0@, self.records@[i - 1].1@));
            if str_eq(self.records[i - 1].0.as_str(), word) {
                return Some(self.records[i - 1].1.clone());
            }
            i = i - 1;
        }
        None
    }

    /// The set of valid roots: the lemmas of the dictionary.
    pub fn roots(&self) -> (r: ValidRoots)
        ensures
            r@ == lemmas_of(self@),
    {
        let mut lemmas: Vec<String> = Vec::new();
        let mut i: usize = 0;
        while i < self.records.len()
            invariant
                i <= self.records@.len(),
                self@.len() == self.records@.len(),
                lemmas@.map_values(|s: String| s@) =~= lemmas_of(self@).subrange(0, i as int),
            decreases self.records.len() - i,
        {
            let ghost before = lemmas@;
            lemmas.push(self.records[i].1.clone());
            assert(lemmas@.map_values(|s: String| s@) =~= before.map_values(|s: String| s@).push(self.records@[i as int].1@));
            i = i + 1;
        }
        ValidRoots { lemmas }
    }
}

/// The set of valid roots.
///
/// Held as a `Vec` rather than a `HashSet`, for the same reason as the
/// dictionary's records: membership of a `String` in a `HashSet` cannot be
/// proved with vstd. Repeated lemmas do no harm, since only membership is
/// asked.
pub struct ValidRoots {
    lemmas: Vec<String>,
}

impl View for ValidRoots {
    type V = Seq<Seq<char>>;

    closed spec fn view(&self) -> Seq<Seq<char>> {
        self.lemmas@.map_values(|s: String| s@)
    }
}

impl ValidRoots {
    /// A set with no roots.
    pub fn empty() -> (r: Self)
        ensures
            r@ == Seq::<Seq<char>>::empty(),
    {
        let r = ValidRoots { lemmas: Vec::new() };
        assert(r@ =~= Seq::<Seq<char>>::empty());
        r
    }

    /// Whether `word` is a valid root.
    pub fn contains(&self, word: &str) -> (r: bool)
        ensures
            r == self@.contains(word@),
    {
        let mut i: usize = 0;
        while i < self.lemmas.len()
            invariant
                i <= self.lemmas@.len(),
                self@.len() == self.lemmas@.len(),
                forall|j: int| 0 <= j < i ==> self@[j] != word@,
            decreases self.lemmas.len() - i,
        {
            if str_eq(self.lemmas[i].as_str(), word) {
                assert(self@[i as int] == word@);
                return true;
            }
            i = i + 1;
        }
        false
    }
}

/// The valid roots of the embedded dictionary.
pub fn get_valid_roots() -> (r: ValidRoots)
    ensures
        r@ == lemmas_of(embedded_records()),
{
    LemmaDictionary::embedded().roots()
}

} // verus!
