//! The ignore-list rules: how the lines of an ignore file, plus the fixed
//! entries, become the list of paths the surrounding tool skips. Reading
//! the file is the caller's work.

use vstd::prelude::*;
use vstd::string::*;

use crate::text;
use crate::text::{lines_spec, str_views, trim_spec};

verus! {

/// One line of the ignore file as an entry: trimmed, and with a leading
/// `.` put before an absolute pattern.
pub open spec fn ignore_entry(line: Seq<char>) -> Seq<char> {
    let t = trim_spec(line);
    if t.len() > 0 && t[0] == '/' {
        seq!['.'] + t
    } else {
        t
    }
}

/// The content's lines as Rust's line iterator hands them out: a trailing
/// newline contributes no final empty line.
pub open spec fn content_lines(content: Seq<char>) -> Seq<Seq<char>> {
    let raw = lines_spec(content);
    if raw.len() > 0 && raw.last() == Seq::<char>::empty() {
        raw.drop_last()
    } else {
        raw
    }
}

/// The entries made from a sequence of lines.
pub open spec fn ignore_entries(ls: Seq<Seq<char>>) -> Seq<Seq<char>> {
    ls.map(|i: int, l: Seq<char>| ignore_entry(l))
}

/// The whole ignore list for an ignore file's content: one entry per line,
/// then the four fixed entries.
pub open spec fn ignore_list_spec(content: Seq<char>) -> Seq<Seq<char>> {
    ignore_entries(content_lines(content)) + seq![
        "./.git"@,
        "./.gitignore"@,
        "./Cargo.toml"@,
        "./Cargo.lock"@,
    ]
}

/// The ignore list built from an ignore file's content.
pub fn build_ignore_list(content: &str) -> (r: Vec<String>)
    ensures
        str_views(r@) == ignore_list_spec(content@),
{
    let chars = text::chars_of(content);
    let lines = text::split_lines(&chars);
    let ghost ls = text::views_of(lines@);
    let mut count = lines.len();
    let last = &lines[count - 1];
    proof {
        assert(last@ == ls[count - 1]);
        assert(ls.last() == ls[count - 1]);
    }
    if last.len() == 0 {
        proof {
            assert(ls.last() =~= Seq::<char>::empty());
        }
        count = count - 1;
    } else {
        proof {
            assert(ls.last() != Seq::<char>::empty());
        }
    }
    proof {
        assert(content_lines(content@) =~= ls.take(count as int));
    }
    let mut r: Vec<String> = Vec::new();
    let mut i: usize = 0;
    proof {
        assert(str_views(r@) =~= ignore_entries(ls.take(count as int)).take(0));
    }
    while i < count
        invariant
            i <= count <= lines@.len(),
            ls == text::views_of(lines@),
            ls.len() == lines@.len(),
            str_views(r@) == ignore_entries(ls.take(count as int)).take(i as int),
        decreases count - i,
    {
        let li = &lines[i];
        proof {
            assert(li@ == ls[i as int]);
            assert(li@.skip(0) =~= li@);
        }
        let ms = text::trim_from(li, 0);
        let me = text::trim_end_from(li, ms);
        proof {
            assert(trim_spec(li@) == li@.subrange(ms as int, me as int));
        }
        let sub = text::subvec(li, ms, me);
        let trimmed = text::string_from_chars(&sub);
        let entry: String = if me > ms && li[ms] == '/' {
            let mut e = String::from_str(".");
            e.append(trimmed.as_str());
            proof {
                reveal_strlit(".");
                assert(e@ =~= seq!['.'] + trimmed@);
            }
            e
        } else {
            proof {
                if me > ms {
                    assert(trim_spec(li@)[0] == li@[ms as int]);
                }
            }
            trimmed
        };
        proof {
            assert(entry@ == ignore_entry(ls[i as int]));
            text::lemma_str_views_push(r@, entry);
            assert(str_views(r@).push(entry@) =~= ignore_entries(ls.take(count as int)).take(
                i + 1,
            ));
        }
        r.push(entry);
        i = i + 1;
    }
    proof {
        assert(ignore_entries(ls.take(count as int)).take(count as int) =~= ignore_entries(
            content_lines(content@),
        ));
    }
    push_str_entry(&mut r, "./.git");
    push_str_entry(&mut r, "./.gitignore");
    push_str_entry(&mut r, "./Cargo.toml");
    push_str_entry(&mut r, "./Cargo.lock");
    proof {
        assert(str_views(r@) =~= ignore_list_spec(content@));
    }
    r
}

fn push_str_entry(r: &mut Vec<String>, s: &str)
    ensures
        str_views(final(r)@) == str_views(old(r)@).push(s@),
{
    let ghost o = r@;
    let e = String::from_str(s);
    proof {
        text::lemma_str_views_push(o, e);
    }
    r.push(e);
}

} // verus!
