//! Character-level helpers: trimming, line splitting, and conversions
//! between `&str`, `Vec<char>` and `String`.

use vstd::prelude::*;
use vstd::string::*;

use crate::is_space;

verus! {

/// The sequence with leading whitespace removed.
pub open spec fn trim_start_spec(l: Seq<char>) -> Seq<char>
    decreases l.len(),
{
    if l.len() > 0 && is_space(l[0]) {
        trim_start_spec(l.drop_first())
    } else {
        l
    }
}

/// The sequence with trailing whitespace removed.
pub open spec fn trim_end_spec(l: Seq<char>) -> Seq<char>
    decreases l.len(),
{
    if l.len() > 0 && is_space(l[l.len() - 1]) {
        trim_end_spec(l.drop_last())
    } else {
        l
    }
}

/// The sequence with whitespace removed from both ends.
pub open spec fn trim_spec(l: Seq<char>) -> Seq<char> {
    trim_end_spec(trim_start_spec(l))
}

pub proof fn lemma_trim_start_at(t: Seq<char>, m: int)
    requires
        0 <= m <= t.len(),
        forall|k: int| 0 <= k < m ==> is_space(t[k]),
        m == t.len() || !is_space(t[m]),
    ensures
        trim_start_spec(t) == t.skip(m),
    decreases m,
{
    if m == 0 {
        assert(t.skip(0) =~= t);
    } else {
        lemma_trim_start_at(t.drop_first(), m - 1);
        assert(t.drop_first().skip(m - 1) =~= t.skip(m));
    }
}

pub proof fn lemma_trim_end_at(t: Seq<char>, m: int)
    requires
        0 <= m <= t.len(),
        forall|k: int| m <= k < t.len() ==> is_space(t[k]),
        m == 0 || !is_space(t[m - 1]),
    ensures
        trim_end_spec(t) == t.take(m),
    decreases t.len() - m,
{
    if m == t.len() {
        assert(t.take(m) =~= t);
    } else {
        lemma_trim_end_at(t.drop_last(), m);
        assert(t.drop_last().take(m) =~= t.take(m));
    }
}

/// First index at or after `from` that holds a non-whitespace character.
pub fn trim_from(l: &Vec<char>, from: usize) -> (r: usize)
    requires
        from <= l@.len(),
    ensures
        from <= r <= l@.len(),
        forall|k: int| from <= k < r ==> is_space(l@[k]),
        r < l@.len() ==> !is_space(l@[r as int]),
        trim_start_spec(l@.skip(from as int)) == l@.skip(r as int),
{
    let mut r = from;
    while r < l.len() && is_space_exec(l[r])
        invariant
            from <= r <= l@.len(),
            forall|k: int| from <= k < r ==> is_space(l@[k]),
        decreases l@.len() - r,
    {
        r = r + 1;
    }
    proof {
        lemma_trim_start_at(l@.skip(from as int), r - from);
        assert(l@.skip(from as int).skip(r - from) =~= l@.skip(r as int));
    }
    r
}

/// First index `e` in `[from, l.len()]` such that everything from `e` on is
/// whitespace and the character just before `e` (if inside the range) is not.
pub fn trim_end_from(l: &Vec<char>, from: usize) -> (r: usize)
    requires
        from <= l@.len(),
    ensures
        from <= r <= l@.len(),
        trim_end_spec(l@.skip(from as int)) == l@.subrange(from as int, r as int),
{
    let mut r = l.len();
    while r > from && is_space_exec(l[r - 1])
        invariant
            from <= r <= l@.len(),
            forall|k: int| r <= k < l@.len() ==> is_space(l@[k]),
        decreases r,
    {
        r = r - 1;
    }
    proof {
        let t = l@.skip(from as int);
        assert(forall|k: int| r - from <= k < t.len() ==> is_space(#[trigger] t[k]));
        lemma_trim_end_at(t, r - from);
        assert(t.take(r - from) =~= l@.subrange(from as int, r as int));
    }
    r
}

/// Executable form of [`is_space`].
pub fn is_space_exec(c: char) -> (r: bool)
    ensures
        r == is_space(c),
{
    c == ' ' || c == '\t' || c == '\r'
}

/// Index of the first newline in `s`, or `-1` if `s` holds none.
pub open spec fn first_nl(s: Seq<char>) -> int
    decreases s.len(),
{
    if s.len() == 0 {
        -1
    } else if s[0] == '\n' {
        0
    } else {
        let r = first_nl(s.drop_first());
        if r < 0 {
            -1
        } else {
            r + 1
        }
    }
}

pub proof fn lemma_first_nl_at(s: Seq<char>, m: int)
    requires
        0 <= m <= s.len(),
        forall|k: int| 0 <= k < m ==> s[k] != '\n',
        m == s.len() || s[m] == '\n',
    ensures
        first_nl(s) == if m == s.len() { -1int } else { m },
    decreases m,
{
    if m > 0 {
        lemma_first_nl_at(s.drop_first(), m - 1);
    }
}

pub proof fn lemma_first_nl_bounds(s: Seq<char>)
    ensures
        first_nl(s) >= 0 ==> first_nl(s) < s.len() && s[first_nl(s)] == '\n',
        first_nl(s) < 0 ==> forall|k: int| 0 <= k < s.len() ==> s[k] != '\n',
    decreases s.len(),
{
    if s.len() > 0 && s[0] != '\n' {
        lemma_first_nl_bounds(s.drop_first());
        let r = first_nl(s.drop_first());
        if r >= 0 {
            assert(s[r + 1] == s.drop_first()[r]);
        } else {
            assert forall|k: int| 0 <= k < s.len() implies s[k] != '\n' by {
                if k > 0 {
                    assert(s.drop_first()[k - 1] != '\n');
                }
            }
        }
    }
}

/// The lines of `s`, split on `'\n'`. The newline characters themselves
/// belong to no line; a trailing newline contributes a final empty line.
pub open spec fn lines_spec(s: Seq<char>) -> Seq<Seq<char>>
    decreases s.len() via lines_spec_decreases
{
    let i = first_nl(s);
    if i < 0 {
        seq![s]
    } else {
        seq![s.take(i)] + lines_spec(s.skip(i + 1))
    }
}

#[via_fn]
proof fn lines_spec_decreases(s: Seq<char>) {
    lemma_first_nl_bounds(s);
}

/// The characters of `s`, one per element.
pub fn chars_of(s: &str) -> (v: Vec<char>)
    ensures
        v@ == s@,
{
    let n = s.unicode_len();
    let mut v: Vec<char> = Vec::new();
    let mut i: usize = 0;
    while i < n
        invariant
            i <= n,
            n == s@.len(),
            v@ == s@.take(i as int),
        decreases n - i,
    {
        v.push(s.get_char(i));
        proof {
            assert(s@.take(i as int).push(s@[i as int]) =~= s@.take(i + 1));
        }
        i = i + 1;
    }
    proof {
        assert(s@.take(n as int) =~= s@);
    }
    v
}

/// The characters of `v` in positions `[a, b)`, as their own vector.
pub fn subvec(v: &Vec<char>, a: usize, b: usize) -> (r: Vec<char>)
    requires
        a <= b <= v@.len(),
    ensures
        r@ == v@.subrange(a as int, b as int),
{
    let mut r: Vec<char> = Vec::new();
    let mut i = a;
    while i < b
        invariant
            a <= i <= b <= v@.len(),
            r@ == v@.subrange(a as int, i as int),
        decreases b - i,
    {
        r.push(v[i]);
        proof {
            assert(v@.subrange(a as int, i as int).push(v@[i as int]) =~= v@.subrange(
                a as int,
                i + 1,
            ));
        }
        i = i + 1;
    }
    r
}

/// Relies on `String` implementing `FromIterator<char>`: collecting
/// characters yields the string of exactly those characters, in order.
#[verifier::external_body]
pub fn string_from_chars(v: &Vec<char>) -> (s: String)
    ensures
        s@ == v@,
{
    v.iter().collect()
}

/// The views of a sequence of character vectors.
pub open spec fn views_of(ls: Seq<Vec<char>>) -> Seq<Seq<char>> {
    ls.map(|i: int, l: Vec<char>| l@)
}

/// The views of a sequence of strings.
pub open spec fn str_views(ss: Seq<String>) -> Seq<Seq<char>> {
    ss.map(|i: int, s: String| s@)
}

pub proof fn lemma_str_views_push(ss: Seq<String>, x: String)
    ensures
        str_views(ss.push(x)) == str_views(ss).push(x@),
{
    assert(str_views(ss.push(x)) =~= str_views(ss).push(x@));
}

proof fn lemma_views_of_push(ls: Seq<Vec<char>>, x: Vec<char>)
    ensures
        views_of(ls.push(x)) == views_of(ls).push(x@),
{
    assert(views_of(ls.push(x)) =~= views_of(ls).push(x@));
}

/// `v` split into its lines, as [`lines_spec`] describes.
pub fn split_lines(v: &Vec<char>) -> (lines: Vec<Vec<char>>)
    ensures
        views_of(lines@) == lines_spec(v@),
        lines@.len() >= 1,
{
    let mut lines: Vec<Vec<char>> = Vec::new();
    let mut start: usize = 0;
    proof {
        assert(v@.skip(0) =~= v@);
        assert(views_of(lines@) + lines_spec(v@) =~= lines_spec(v@));
    }
    loop
        invariant_except_break
            start <= v@.len(),
            lines_spec(v@) == views_of(lines@) + lines_spec(v@.skip(start as int)),
        ensures
            views_of(lines@) == lines_spec(v@),
            lines@.len() >= 1,
        decreases v@.len() - start,
    {
        let mut r = start;
        while r < v.len() && v[r] != '\n'
            invariant
                start <= r <= v@.len(),
                forall|k: int| start <= k < r ==> v@[k] != '\n',
            decreases v@.len() - r,
        {
            r = r + 1;
        }
        let line = subvec(v, start, r);
        proof {
            let rest = v@.skip(start as int);
            assert(forall|k: int| 0 <= k < r - start ==> #[trigger] rest[k] != '\n');
            lemma_first_nl_at(rest, r - start);
            assert(rest.take(r - start) =~= v@.subrange(start as int, r as int));
        }
        if r == v.len() {
            proof {
                let rest = v@.skip(start as int);
                assert(rest.take(r - start) =~= rest);
                assert(lines_spec(rest) == seq![rest]);
                assert(line@ == rest);
                lemma_views_of_push(lines@, line);
                assert(views_of(lines@) + seq![line@] =~= views_of(lines@).push(line@));
            }
            lines.push(line);
            break;
        } else {
            proof {
                let rest = v@.skip(start as int);
                assert(lines_spec(rest) == seq![rest.take(r - start)] + lines_spec(
                    rest.skip(r - start + 1),
                ));
                assert(rest.skip(r - start + 1) =~= v@.skip(r + 1));
                lemma_views_of_push(lines@, line);
                assert(views_of(lines@).push(line@) + lines_spec(v@.skip(r + 1)) =~= views_of(
                    lines@,
                ) + lines_spec(rest));
            }
            lines.push(line);
            start = r + 1;
        }
    }
    lines
}

} // verus!
