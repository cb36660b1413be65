//! Helpers for rendering a token into issue text: substring search (for
//! the path that follows the repository name), decimal formatting of line
//! numbers, and joining message lines.

use vstd::prelude::*;
use vstd::string::*;

use crate::text;

verus! {

/// Whether `pat` occurs in `s` at position `i`.
pub open spec fn matches_at(s: Seq<char>, pat: Seq<char>, i: int) -> bool {
    0 <= i && i + pat.len() <= s.len() && s.subrange(i, i + pat.len() as int) == pat
}

/// Position of the first occurrence of `pat` in `s`, or `-1` if there is
/// none.
pub open spec fn first_match(s: Seq<char>, pat: Seq<char>) -> int
    decreases s.len(),
{
    if matches_at(s, pat, 0) {
        0
    } else if s.len() == 0 {
        -1
    } else {
        let r = first_match(s.drop_first(), pat);
        if r < 0 {
            -1
        } else {
            r + 1
        }
    }
}

proof fn lemma_matches_at_shift(s: Seq<char>, pat: Seq<char>, k: int)
    requires
        0 <= k,
        s.len() > 0,
    ensures
        matches_at(s.drop_first(), pat, k) == matches_at(s, pat, k + 1),
{
    if k + 1 + pat.len() <= s.len() {
        assert(s.drop_first().subrange(k, k + pat.len() as int) =~= s.subrange(
            k + 1,
            k + 1 + pat.len() as int,
        ));
    }
}

pub proof fn lemma_first_match_props(s: Seq<char>, pat: Seq<char>)
    ensures
        first_match(s, pat) >= 0 ==> matches_at(s, pat, first_match(s, pat)) && (forall|k: int|
            0 <= k < first_match(s, pat) ==> !matches_at(s, pat, k)),
        first_match(s, pat) < 0 ==> forall|k: int| !matches_at(s, pat, k),
    decreases s.len(),
{
    if matches_at(s, pat, 0) {
    } else if s.len() == 0 {
        assert forall|k: int| !matches_at(s, pat, k) by {
            if 0 <= k && k + pat.len() <= s.len() {
                assert(k == 0);
            }
        }
    } else {
        lemma_first_match_props(s.drop_first(), pat);
        let r = first_match(s.drop_first(), pat);
        if r >= 0 {
            lemma_matches_at_shift(s, pat, r);
            assert forall|k: int| 0 <= k < r + 1 implies !matches_at(s, pat, k) by {
                if k > 0 {
                    lemma_matches_at_shift(s, pat, k - 1);
                }
            }
        } else {
            assert forall|k: int| !matches_at(s, pat, k) by {
                if k > 0 {
                    lemma_matches_at_shift(s, pat, k - 1);
                }
            }
        }
    }
}

proof fn lemma_first_match_at(t: Seq<char>, pat: Seq<char>, m: int)
    requires
        0 <= m,
        forall|k: int| 0 <= k < m ==> !matches_at(t, pat, k),
        matches_at(t, pat, m),
    ensures
        first_match(t, pat) == m,
    decreases m,
{
    if m == 0 {
    } else {
        assert(!matches_at(t, pat, 0));
        lemma_matches_at_shift(t, pat, m - 1);
        assert forall|k: int| 0 <= k < m - 1 implies !matches_at(t.drop_first(), pat, k) by {
            lemma_matches_at_shift(t, pat, k);
        }
        lemma_first_match_at(t.drop_first(), pat, m - 1);
    }
}

/// What is left of `s` after the last of its non-overlapping, left-to-right
/// matches of `pat`; `s` itself if `pat` does not occur, and the empty
/// sequence if `pat` is empty.
pub open spec fn after_splits(s: Seq<char>, pat: Seq<char>) -> Seq<char>
    decreases s.len() via after_splits_decreases
{
    if pat.len() == 0 {
        Seq::empty()
    } else if first_match(s, pat) >= 0 {
        after_splits(s.skip(first_match(s, pat) + pat.len() as int), pat)
    } else {
        s
    }
}

#[via_fn]
proof fn after_splits_decreases(s: Seq<char>, pat: Seq<char>) {
    if pat.len() > 0 && first_match(s, pat) >= 0 {
        lemma_first_match_props(s, pat);
    }
}

proof fn lemma_matches_at_offset(s: Seq<char>, pat: Seq<char>, off: int, k: int)
    requires
        0 <= off <= s.len(),
        0 <= k,
    ensures
        matches_at(s.skip(off), pat, k) == matches_at(s, pat, off + k),
{
    if off + k + pat.len() <= s.len() {
        assert(s.skip(off).subrange(k, k + pat.len() as int) =~= s.subrange(
            off + k,
            off + k + pat.len() as int,
        ));
    }
}

/// Whether `pat` occurs in `s` at position `i`, tested character by
/// character.
fn match_at_exec(s: &Vec<char>, pat: &Vec<char>, i: usize) -> (r: bool)
    requires
        i + pat@.len() <= s@.len(),
    ensures
        r == matches_at(s@, pat@, i as int),
{
    let n = s.len();
    let p = pat.len();
    let mut k: usize = 0;
    while k < p
        invariant
            k <= p,
            n == s@.len(),
            p == pat@.len(),
            i + p <= n,
            forall|q: int| 0 <= q < k ==> s@[i + q] == pat@[q],
        decreases p - k,
    {
        if s[i + k] != pat[k] {
            proof {
                assert(s@.subrange(i as int, i + pat@.len() as int)[k as int] != pat@[k as int]);
            }
            return false;
        }
        k = k + 1;
    }
    proof {
        assert(s@.subrange(i as int, i + pat@.len() as int) =~= pat@);
    }
    true
}

/// First occurrence of `pat` in `s` at or after position `from`.
fn find_from(s: &Vec<char>, pat: &Vec<char>, from: usize) -> (r: Option<usize>)
    requires
        from <= s@.len(),
        pat@.len() >= 1,
    ensures
        match r {
            Some(i) => from <= i && i + pat@.len() <= s@.len() && first_match(
                s@.skip(from as int),
                pat@,
            ) == i - from,
            None => first_match(s@.skip(from as int), pat@) < 0,
        },
{
    let n = s.len();
    let p = pat.len();
    if p > n || from > n - p {
        proof {
            assert forall|k: int| !matches_at(s@.skip(from as int), pat@, k) by {
                if 0 <= k {
                    lemma_matches_at_offset(s@, pat@, from as int, k);
                }
            }
            lemma_first_match_props(s@.skip(from as int), pat@);
        }
        return None;
    }
    let mut i = from;
    while i <= n - p
        invariant
            from <= i,
            i <= n - p + 1,
            n == s@.len(),
            p == pat@.len(),
            p >= 1,
            p <= n,
            forall|k: int| from <= k < i ==> !matches_at(s@, pat@, k),
        decreases n - p + 1 - i,
    {
        if match_at_exec(s, pat, i) {
            proof {
                assert forall|k: int| 0 <= k < i - from implies !matches_at(
                    s@.skip(from as int),
                    pat@,
                    k,
                ) by {
                    lemma_matches_at_offset(s@, pat@, from as int, k);
                }
                lemma_matches_at_offset(s@, pat@, from as int, i - from);
                lemma_first_match_at(s@.skip(from as int), pat@, i - from);
            }
            return Some(i);
        }
        i = i + 1;
    }
    proof {
        assert forall|k: int| !matches_at(s@.skip(from as int), pat@, k) by {
            if 0 <= k {
                lemma_matches_at_offset(s@, pat@, from as int, k);
            }
        }
        lemma_first_match_props(s@.skip(from as int), pat@);
    }
    None
}

/// The characters of `s` after the last left-to-right match of `pat`, as
/// [`after_splits`] describes.
pub fn last_split_tail(s: &Vec<char>, pat: &Vec<char>) -> (r: Vec<char>)
    ensures
        r@ == after_splits(s@, pat@),
{
    if pat.len() == 0 {
        let r: Vec<char> = Vec::new();
        proof {
            assert(r@ =~= after_splits(s@, pat@));
        }
        return r;
    }
    let n = s.len();
    let mut cur: usize = 0;
    proof {
        assert(s@.skip(0) =~= s@);
    }
    loop
        invariant_except_break
            cur <= n,
            n == s@.len(),
            pat@.len() >= 1,
            after_splits(s@, pat@) == after_splits(s@.skip(cur as int), pat@),
        ensures
            cur <= s@.len(),
            after_splits(s@, pat@) == s@.skip(cur as int),
        decreases s@.len() - cur,
    {
        match find_from(s, pat, cur) {
            Some(i) => {
                proof {
                    let rest = s@.skip(cur as int);
                    assert(first_match(rest, pat@) == i - cur);
                    assert(after_splits(rest, pat@) == after_splits(
                        rest.skip(i - cur + pat@.len() as int),
                        pat@,
                    ));
                    assert(rest.skip(i - cur + pat@.len() as int) =~= s@.skip(
                        i + pat@.len() as int,
                    ));
                }
                cur = i + pat.len();
            },
            None => {
                proof {
                    assert(after_splits(s@.skip(cur as int), pat@) == s@.skip(cur as int));
                }
                break ;
            },
        }
    }
    let r = text::subvec(s, cur, s.len());
    proof {
        assert(s@.subrange(cur as int, s@.len() as int) =~= s@.skip(cur as int));
    }
    r
}

/// The decimal digit `d` as a character.
pub open spec fn digit_char(d: nat) -> char {
    if d == 0 {
        '0'
    } else if d == 1 {
        '1'
    } else if d == 2 {
        '2'
    } else if d == 3 {
        '3'
    } else if d == 4 {
        '4'
    } else if d == 5 {
        '5'
    } else if d == 6 {
        '6'
    } else if d == 7 {
        '7'
    } else if d == 8 {
        '8'
    } else {
        '9'
    }
}

/// The decimal digits of `n`, most significant first.
pub open spec fn dec_str(n: nat) -> Seq<char>
    decreases n,
{
    if n < 10 {
        seq![digit_char(n)]
    } else {
        dec_str(n / 10).push(digit_char(n % 10))
    }
}

fn digit_char_exec(d: usize) -> (c: char)
    requires
        d < 10,
    ensures
        c == digit_char(d as nat),
{
    if d == 0 {
        '0'
    } else if d == 1 {
        '1'
    } else if d == 2 {
        '2'
    } else if d == 3 {
        '3'
    } else if d == 4 {
        '4'
    } else if d == 5 {
        '5'
    } else if d == 6 {
        '6'
    } else if d == 7 {
        '7'
    } else if d == 8 {
        '8'
    } else {
        '9'
    }
}

/// `n` written in decimal.
pub fn usize_to_string(n: usize) -> (s: String)
    ensures
        s@ == dec_str(n as nat),
{
    let mut digits: Vec<char> = Vec::new();
    let mut cur = n;
    proof {
        assert(dec_str(n as nat) =~= dec_str(n as nat) + digits@.reverse());
    }
    loop
        invariant_except_break
            dec_str(n as nat) == dec_str(cur as nat) + digits@.reverse(),
        ensures
            dec_str(n as nat) == digits@.reverse(),
        decreases cur,
    {
        let d = cur % 10;
        let c = digit_char_exec(d);
        proof {
            assert(digits@.push(c).reverse() =~= seq![c] + digits@.reverse());
            if cur >= 10 {
                assert(dec_str(cur as nat) == dec_str((cur / 10) as nat).push(
                    digit_char((cur % 10) as nat),
                ));
                assert(dec_str((cur / 10) as nat) + (seq![c] + digits@.reverse()) =~= dec_str(
                    cur as nat,
                ) + digits@.reverse());
            } else {
                assert(dec_str(cur as nat) =~= seq![c]);
                assert(seq![c] + digits@.reverse() =~= dec_str(cur as nat) + digits@.reverse());
            }
        }
        digits.push(c);
        cur = cur / 10;
        if cur == 0 {
            break ;
        }
    }
    let mut out: Vec<char> = Vec::new();
    let mut k = digits.len();
    while k > 0
        invariant
            k <= digits@.len(),
            out@ =~= digits@.reverse().take(digits@.len() - k),
        decreases k,
    {
        k = k - 1;
        out.push(digits[k]);
        proof {
            assert(out@ =~= digits@.reverse().take(digits@.len() - k));
        }
    }
    proof {
        assert(digits@.reverse().take(digits@.len() as int) =~= digits@.reverse());
    }
    text::string_from_chars(&out)
}

/// The message lines joined with a newline between each two.
pub open spec fn join_nl(msgs: Seq<Seq<char>>) -> Seq<char>
    decreases msgs.len(),
{
    if msgs.len() == 0 {
        Seq::empty()
    } else if msgs.len() == 1 {
        msgs[0]
    } else {
        msgs[0] + seq!['\n'] + join_nl(msgs.drop_first())
    }
}

pub proof fn lemma_join_nl_push(s: Seq<Seq<char>>, x: Seq<char>)
    ensures
        join_nl(s.push(x)) == if s.len() == 0 {
            x
        } else {
            join_nl(s) + seq!['\n'] + x
        },
    decreases s.len(),
{
    if s.len() == 0 {
        assert(s.push(x) =~= seq![x]);
        assert(join_nl(seq![x]) == x);
    } else if s.len() == 1 {
        assert(s.push(x).drop_first() =~= seq![x]);
        assert(s.push(x)[0] == s[0]);
        assert(join_nl(seq![x]) == x);
        assert(join_nl(s.push(x)) == s[0] + seq!['\n'] + x);
        assert(join_nl(s) == s[0]);
    } else {
        assert(s.push(x).drop_first() =~= s.drop_first().push(x));
        lemma_join_nl_push(s.drop_first(), x);
        assert(s.push(x)[0] == s[0]);
        assert(s[0] + seq!['\n'] + (join_nl(s.drop_first()) + seq!['\n'] + x) =~= (s[0]
            + seq!['\n'] + join_nl(s.drop_first())) + seq!['\n'] + x);
    }
}

} // verus!
