//! Tag lookup: the first line of a telegram that starts with a tag, and the
//! parenthesized value groups on it.

use vstd::prelude::*;

use crate::text::{chars_of, find_char, find_from, string_from_chars};

verus! {

/// Why a reading could not be taken from a telegram.
#[derive(PartialEq, Eq, Structural, Clone, Copy, Debug)]
pub enum ParseError {
    /// No line starts with the tag.
    TagNotFound,
    /// The tag's line holds no (non-empty) value group, or fewer than the
    /// reading needs.
    NoValues,
    /// The value lacks the unit that the reading requires.
    InvalidUnit,
    /// The value is no decimal number that `decimal::thousandths` reads.
    MalformedNumber,
}

proof fn lemma_find_char_bounds(s: Seq<char>, c: char)
    ensures
        0 <= find_char(s, c) <= s.len(),
    decreases s.len(),
{
    if s.len() > 0 && s[0] != c {
        lemma_find_char_bounds(s.drop_first(), c);
    }
}

/// A line without its line ending: a carriage return before the newline is
/// part of the ending.
pub open spec fn strip_cr(line: Seq<char>, terminated: bool) -> Seq<char> {
    if terminated && line.len() > 0 && line.last() == '\r' {
        line.drop_last()
    } else {
        line
    }
}

/// The first line of `t` that starts with `id`, without its line ending.
/// Lines end at `\n` (or `\r\n`); a final line ending opens no new line.
pub open spec fn find_line(t: Seq<char>, id: Seq<char>) -> Option<Seq<char>>
    decreases t.len()
        via find_line_decreases
{
    if t.len() == 0 {
        None
    } else {
        let k = find_char(t, '\n');
        let line = strip_cr(t.take(k), k < t.len());
        if id.is_prefix_of(line) {
            Some(line)
        } else if k < t.len() {
            find_line(t.skip(k + 1), id)
        } else {
            None
        }
    }
}

#[via_fn]
proof fn find_line_decreases(t: Seq<char>, id: Seq<char>) {
    lemma_find_char_bounds(t, '\n');
}

proof fn lemma_found_line_has_prefix(t: Seq<char>, id: Seq<char>)
    ensures
        find_line(t, id) matches Some(line) ==> id.is_prefix_of(line),
    decreases t.len(),
{
    if t.len() > 0 {
        let k = find_char(t, '\n');
        lemma_find_char_bounds(t, '\n');
        if k < t.len() {
            lemma_found_line_has_prefix(t.skip(k + 1), id);
        }
    }
}

/// The value groups of `s`, read left to right while `open` holds the
/// group begun so far, if any: each `(` begins a group, each `)` ends the
/// open one. Empty groups, and text outside parentheses, are left out.
pub open spec fn scan_groups(s: Seq<char>, open: Option<Seq<char>>) -> Seq<Seq<char>>
    decreases s.len(),
{
    if s.len() == 0 {
        Seq::empty()
    } else if s[0] == '(' {
        scan_groups(s.drop_first(), Some(Seq::empty()))
    } else if s[0] == ')' {
        match open {
            Some(g) => if g.len() > 0 {
                seq![g] + scan_groups(s.drop_first(), None)
            } else {
                scan_groups(s.drop_first(), None)
            },
            None => scan_groups(s.drop_first(), None),
        }
    } else {
        scan_groups(
            s.drop_first(),
            match open {
                Some(g) => Some(g.push(s[0])),
                None => None,
            },
        )
    }
}

/// The values of the tag `id` in telegram `t`: the value groups on the
/// first line that starts with `id`, after `id` itself.
pub open spec fn values_by_id(id: Seq<char>, t: Seq<char>) -> Result<Seq<Seq<char>>, ParseError> {
    match find_line(t, id) {
        None => Err(ParseError::TagNotFound),
        Some(line) => {
            let groups = scan_groups(line.skip(id.len() as int), None);
            if groups.len() == 0 {
                Err(ParseError::NoValues)
            } else {
                Ok(groups)
            }
        },
    }
}

/// The texts of character vectors.
pub open spec fn char_views(v: Seq<Vec<char>>) -> Seq<Seq<char>> {
    v.map_values(|x: Vec<char>| x@)
}

/// The texts of strings.
pub open spec fn string_views(v: Seq<String>) -> Seq<Seq<char>> {
    v.map_values(|x: String| x@)
}

/// Whether `id` is a prefix of `t[lo..hi]`.
fn starts_with(t: &[char], lo: usize, hi: usize, id: &[char]) -> (r: bool)
    requires
        lo <= hi <= t.len(),
    ensures
        r == id@.is_prefix_of(t@.subrange(lo as int, hi as int)),
{
    if id.len() > hi - lo {
        return false;
    }
    let mut i: usize = 0;
    while i < id.len()
        invariant
            lo <= hi <= t.len(),
            id.len() <= hi - lo,
            i <= id.len(),
            forall|j: int| 0 <= j < i ==> id@[j] == t@[lo + j],
        decreases id.len() - i,
    {
        if id[i] != t[lo + i] {
            assert(t@.subrange(lo as int, hi as int)[i as int] == t@[lo + i]);
            return false;
        }
        i = i + 1;
    }
    assert(id@ =~= t@.subrange(lo as int, hi as int).subrange(0, id@.len() as int));
    true
}

/// The bounds of the line that `find_line` picks.
fn find_line_bounds(t: &[char], id: &[char]) -> (r: Option<(usize, usize)>)
    ensures
        match r {
            Some((a, b)) => a <= b <= t.len() && find_line(t@, id@) == Some(
                t@.subrange(a as int, b as int),
            ),
            None => find_line(t@, id@) is None,
        },
{
    let n = t.len();
    let mut start: usize = 0;
    assert(t@.subrange(0, n as int) =~= t@);
    while start < n
        invariant
            n == t.len(),
            start <= n,
            find_line(t@, id@) == find_line(t@.subrange(start as int, n as int), id@),
        decreases n - start,
    {
        let ghost rest = t@.subrange(start as int, n as int);
        let k = find_from(t, start, '\n');
        let mut end = k;
        if k < n && end > start && t[end - 1] == '\r' {
            end = end - 1;
        }
        proof {
            let raw = rest.take(k - start);
            assert(raw =~= t@.subrange(start as int, k as int));
            if k < n && k > start && t@[k - 1] == '\r' {
                assert(raw.drop_last() =~= t@.subrange(start as int, end as int));
            }
            assert(strip_cr(raw, k - start < rest.len()) =~= t@.subrange(start as int, end as int));
            if k < n {
                assert(rest.skip(k - start + 1) =~= t@.subrange(k + 1, n as int));
            }
        }
        if starts_with(t, start, end, id) {
            return Some((start, end));
        }
        if k < n {
            start = k + 1;
        } else {
            return None;
        }
    }
    None
}

/// The value groups of `s[lo..hi]`.
fn groups_in(s: &[char], lo: usize, hi: usize) -> (r: Vec<Vec<char>>)
    requires
        lo <= hi <= s.len(),
    ensures
        char_views(r@) == scan_groups(s@.subrange(lo as int, hi as int), None),
{
    let mut out: Vec<Vec<char>> = Vec::new();
    let mut open: Option<Vec<char>> = None;
    let mut i: usize = lo;
    while i < hi
        invariant
            lo <= i <= hi <= s.len(),
            char_views(out@) + scan_groups(
                s@.subrange(i as int, hi as int),
                match open {
                    Some(g) => Some(g@),
                    None => None,
                },
            ) == scan_groups(s@.subrange(lo as int, hi as int), None),
        decreases hi - i,
    {
        let ghost rest = s@.subrange(i as int, hi as int);
        let ghost before = char_views(out@);
        assert(rest.drop_first() =~= s@.subrange(i + 1, hi as int));
        assert(rest[0] == s@[i as int]);
        let c = s[i];
        if c == '(' {
            open = Some(Vec::new());
        } else if c == ')' {
            match open {
                Some(g) => {
                    if g.len() > 0 {
                        let ghost gv = g@;
                        out.push(g);
                        assert(char_views(out@) =~= before.push(gv));
                        assert(before + (seq![gv] + scan_groups(rest.drop_first(), None))
                            =~= before.push(gv) + scan_groups(rest.drop_first(), None));
                    }
                },
                None => {},
            }
            open = None;
        } else {
            match open {
                Some(mut g) => {
                    g.push(c);
                    open = Some(g);
                },
                None => {},
            }
        }
        i = i + 1;
    }
    assert(s@.subrange(hi as int, hi as int).len() == 0);
    assert(char_views(out@) + Seq::<Seq<char>>::empty() =~= char_views(out@));
    out
}

/// The values of tag `id` in telegram `t`, as character vectors.
pub fn values_of(id: &[char], t: &[char]) -> (r: Result<Vec<Vec<char>>, ParseError>)
    ensures
        match r {
            Ok(v) => values_by_id(id@, t@) == Ok::<Seq<Seq<char>>, ParseError>(char_views(v@)),
            Err(e) => values_by_id(id@, t@) == Err::<Seq<Seq<char>>, ParseError>(e),
        },
{
    match find_line_bounds(t, id) {
        None => Err(ParseError::TagNotFound),
        Some((a, b)) => {
            proof {
                lemma_found_line_has_prefix(t@, id@);
            }
            let from = if id.len() <= b - a {
                a + id.len()
            } else {
                b
            };
            assert(t@.subrange(a as int, b as int).skip(id@.len() as int) =~= t@.subrange(
                from as int,
                b as int,
            ));
            let groups = groups_in(t, from, b);
            if groups.len() == 0 {
                Err(ParseError::NoValues)
            } else {
                Ok(groups)
            }
        },
    }
}

/// What `get_values_by_id` returns, as text.
pub open spec fn result_views(r: Result<Vec<String>, ParseError>) -> Result<
    Seq<Seq<char>>,
    ParseError,
> {
    match r {
        Ok(v) => Ok(string_views(v@)),
        Err(e) => Err(e),
    }
}

/// The value groups of tag `id` in `telegram`: those on the first line that
/// starts with `id`, in order; `TagNotFound` if no line does, `NoValues` if
/// that line holds none.
pub fn get_values_by_id(id: &str, telegram: &str) -> (r: Result<Vec<String>, ParseError>)
    ensures
        result_views(r) == values_by_id(id@, telegram@),
{
    let idc = chars_of(id);
    let tc = chars_of(telegram);
    match values_of(idc.as_slice(), tc.as_slice()) {
        Err(e) => Err(e),
        Ok(groups) => {
            let mut out: Vec<String> = Vec::new();
            let mut i: usize = 0;
            while i < groups.len()
                invariant
                    i <= groups.len(),
                    string_views(out@) =~= char_views(groups@).take(i as int),
                decreases groups.len() - i,
            {
                let ghost before = out@;
                let text = string_from_chars(groups[i].as_slice());
                out.push(text);
                assert(string_views(out@) =~= string_views(before).push(groups@[i as int]@));
                assert(char_views(groups@).take(i + 1) =~= char_views(groups@).take(
                    i as int,
                ).push(groups@[i as int]@));
                i = i + 1;
            }
            assert(char_views(groups@).take(groups.len() as int) =~= char_views(groups@));
            Ok(out)
        },
    }
}

/// Tag lookup is a function of the tag and the telegram alone: two lookups
/// with the same tag in the same telegram give the same result.
pub proof fn lemma_lookup_deterministic(
    id: &str,
    telegram: &str,
    first: Result<Vec<String>, ParseError>,
    second: Result<Vec<String>, ParseError>,
)
    requires
        result_views(first) == values_by_id(id@, telegram@),
        result_views(second) == values_by_id(id@, telegram@),
    ensures
        result_views(first) == result_views(second),
{
}

} // verus!
