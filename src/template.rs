use vstd::prelude::*;
use vstd::string::*;

use crate::error::{names, ErrorModel, MetricError};
use crate::row::Row;

verus! {

/// The index of the first `}` at or after `j`, or the length of `s` when there is none.
pub open spec fn close_from(s: Seq<char>, j: int) -> int
    decreases s.len() - j,
{
    if j >= s.len() {
        s.len() as int
    } else if s[j] == '}' {
        j
    } else {
        close_from(s, j + 1)
    }
}

/// Whether a placeholder token starts at `i`: a `{`, one or more characters
/// other than `}`, then a `}`.
pub open spec fn token_at(s: Seq<char>, i: int) -> bool {
    &&& 0 <= i < s.len()
    &&& s[i] == '{'
    &&& i + 1 < close_from(s, i + 1) < s.len()
}

/// The names of the placeholder tokens of `s` found by a scan from `i` on.
pub open spec fn placeholders_from(s: Seq<char>, i: int) -> Seq<Seq<char>>
    decreases s.len() - i,
{
    if i >= s.len() {
        Seq::empty()
    } else if token_at(s, i) {
        seq![s.subrange(i + 1, close_from(s, i + 1))] + placeholders_from(s, close_from(s, i + 1) + 1)
    } else {
        placeholders_from(s, i + 1)
    }
}

/// The placeholder names of a pattern, left to right, repetitions included.
pub open spec fn placeholders_of(s: Seq<char>) -> Seq<Seq<char>> {
    placeholders_from(s, 0)
}

/// The text of `s` from `i` on, with each placeholder token replaced by its value in `m`.
pub open spec fn render_from(s: Seq<char>, i: int, m: Map<Seq<char>, Seq<char>>) -> Seq<char>
    decreases s.len() - i,
{
    if i >= s.len() {
        Seq::empty()
    } else if token_at(s, i) {
        m[s.subrange(i + 1, close_from(s, i + 1))] + render_from(s, close_from(s, i + 1) + 1, m)
    } else {
        seq![s[i]] + render_from(s, i + 1, m)
    }
}

/// A pattern with each placeholder token replaced by its value in `m`.
pub open spec fn render_of(s: Seq<char>, m: Map<Seq<char>, Seq<char>>) -> Seq<char> {
    render_from(s, 0, m)
}

/// The first of `ns` that is not a key of `m`, if any.
pub open spec fn first_absent(ns: Seq<Seq<char>>, m: Map<Seq<char>, Seq<char>>) -> Option<Seq<char>>
    decreases ns.len(),
{
    if ns.len() == 0 {
        None
    } else if !m.contains_key(ns[0]) {
        Some(ns[0])
    } else {
        first_absent(ns.drop_first(), m)
    }
}

/// What evaluating the pattern `s` against `m` gives.
pub open spec fn evaluation(s: Seq<char>, m: Map<Seq<char>, Seq<char>>) -> Result<Seq<char>, ErrorModel> {
    match first_absent(placeholders_of(s), m) {
        Some(n) => Err(ErrorModel::MissingPlaceholder(n)),
        None => Ok(render_of(s, m)),
    }
}

/// The characters of `s`, one by one.
fn chars_of(s: &str) -> (r: Vec<char>)
    ensures
        r@ == s@,
{
    let n = s.unicode_len();
    let mut r: Vec<char> = Vec::new();
    let mut i: usize = 0;
    while i < n
        invariant
            n == s@.len(),
            i <= n,
            r@ == s@.take(i as int),
        decreases n - i,
    {
        r.push(s.get_char(i));
        i = i + 1;
        assert(r@ =~= s@.take(i as int));
    }
    assert(r@ =~= s@);
    r
}

/// The index of the first `}` in `s` at or after `j`, or its length.
fn find_close(s: &Vec<char>, j: usize) -> (r: usize)
    requires
        j <= s@.len(),
    ensures
        r == close_from(s@, j as int),
{
    let mut k: usize = j;
    while k < s.len() && s[k] != '}'
        invariant
            j <= k <= s@.len(),
            close_from(s@, j as int) == close_from(s@, k as int),
        decreases s@.len() - k,
    {
        k = k + 1;
    }
    k
}

/// A metric-name pattern: literal text with `{name}` placeholder tokens.
pub struct Template {
    pub raw: String,
    pub placeholders: Vec<String>,
}

impl Template {
    /// The placeholder list is the one that the pattern holds.
    pub open spec fn well_formed(&self) -> bool {
        names(self.placeholders@) == placeholders_of(self.raw@)
    }

    /// Parses `pattern` into its placeholder names.
    pub fn new(pattern: &str) -> (r: Template)
        ensures
            r.raw@ == pattern@,
            r.well_formed(),
    {
        let s = chars_of(pattern);
        let n = s.len();
        let mut placeholders: Vec<String> = Vec::new();
        let mut i: usize = 0;
        assert(names(placeholders@) + placeholders_from(s@, 0) =~= placeholders_of(pattern@));
        while i < n
            invariant
                s@ == pattern@,
                n == s@.len(),
                i <= n,
                placeholders_of(pattern@) == names(placeholders@) + placeholders_from(s@, i as int),
            decreases n - i,
        {
            if s[i] == '{' {
                let c = find_close(&s, i + 1);
                if i + 1 < c && c < n {
                    let name = String::from_str(pattern.substring_char(i + 1, c));
                    let ghost before = placeholders@;
                    placeholders.push(name);
                    assert(names(placeholders@) =~= names(before).push(name@));
                    assert(names(before) + placeholders_from(s@, i as int) =~= names(placeholders@)
                        + placeholders_from(s@, c + 1));
                    i = c + 1;
                    continue;
                }
            }
            i = i + 1;
        }
        assert(names(placeholders@) + placeholders_from(s@, i as int) =~= names(placeholders@));
        Template { raw: String::from_str(pattern), placeholders }
    }

    /// Replaces each placeholder token of the pattern by its value in `replacements`.
    /// Fails on the first placeholder, in the stored order, that has no value.
    pub fn evaluate(&self, replacements: &Row) -> (r: Result<String, MetricError>)
        requires
            self.well_formed(),
        ensures
            match r {
                Ok(text) => evaluation(self.raw@, replacements@) == Ok::<Seq<char>, ErrorModel>(text@),
                Err(e) => evaluation(self.raw@, replacements@) == Err::<Seq<char>, ErrorModel>(e@),
            },
    {
        let ghost m = replacements@;
        let ghost ps = names(self.placeholders@);
        let mut k: usize = 0;
        assert(ps.skip(0) =~= ps);
        while k < self.placeholders.len()
            invariant
                self.well_formed(),
                ps == names(self.placeholders@),
                m == replacements@,
                k <= ps.len(),
                first_absent(ps, m) == first_absent(ps.skip(k as int), m),
                forall|q: int| 0 <= q < k ==> m.contains_key(#[trigger] ps[q]),
            decreases ps.len() - k,
        {
            assert(ps.skip(k as int).drop_first() =~= ps.skip(k + 1));
            if !replacements.contains_key(&self.placeholders[k]) {
                return Err(MetricError::MissingPlaceholder(self.placeholders[k].clone()));
            }
            k = k + 1;
        }
        assert(ps.skip(k as int) =~= Seq::<Seq<char>>::empty());
        let s = chars_of(self.raw.as_str());
        let n = s.len();
        let mut out = String::new();
        let mut lit: usize = 0;
        let mut i: usize = 0;
        assert(out@ + s@.subrange(0, 0) + render_from(s@, 0, m) =~= render_of(s@, m));
        while i < n
            invariant
                s@ == self.raw@,
                n == s@.len(),
                m == replacements@,
                lit <= i <= n,
                render_of(s@, m) == out@ + s@.subrange(lit as int, i as int) + render_from(s@, i as int, m),
                forall|q: int| 0 <= q < placeholders_from(s@, i as int).len()
                    ==> m.contains_key(#[trigger] placeholders_from(s@, i as int)[q]),
            decreases n - i,
        {
            if s[i] == '{' {
                let c = find_close(&s, i + 1);
                if i + 1 < c && c < n {
                    let name = String::from_str(self.raw.as_str().substring_char(i + 1, c));
                    let ghost rest = placeholders_from(s@, c + 1);
                    assert(placeholders_from(s@, i as int) == seq![name@] + rest);
                    assert(placeholders_from(s@, i as int)[0] == name@);
                    assert forall|q: int| 0 <= q < rest.len() implies m.contains_key(#[trigger] rest[q]) by {
                        assert(rest[q] == placeholders_from(s@, i as int)[q + 1]);
                    }
                    match replacements.get(&name) {
                        Some(v) => {
                            let ghost before = out@;
                            out.append(self.raw.as_str().substring_char(lit, i));
                            out.append(v.as_str());
                            assert(before + s@.subrange(lit as int, i as int) + render_from(s@, i as int, m)
                                =~= out@ + s@.subrange(c + 1, c + 1) + render_from(s@, c + 1, m));
                            i = c + 1;
                            lit = i;
                            continue;
                        },
                        None => {
                            return Err(MetricError::MissingPlaceholder(name));
                        },
                    }
                }
            }
            assert(s@.subrange(lit as int, i as int) + render_from(s@, i as int, m)
                =~= s@.subrange(lit as int, i + 1) + render_from(s@, i + 1, m));
            i = i + 1;
        }
        let ghost before = out@;
        out.append(self.raw.as_str().substring_char(lit, n));
        assert(before + s@.subrange(lit as int, n as int) + render_from(s@, n as int, m) =~= out@);
        Ok(out)
    }
}

} // verus!

verus! {

/// Two templates built from the same pattern hold the same placeholder names,
/// in the same order, repetitions included.
pub proof fn lemma_same_pattern_same_placeholders(a: Template, b: Template)
    requires
        a.well_formed(),
        b.well_formed(),
        a.raw@ == b.raw@,
    ensures
        names(a.placeholders@) == names(b.placeholders@),
{
}

} // verus!
