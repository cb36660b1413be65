//! The annotation scanner.
//!
//! A marker line is a line whose whitespace-trimmed prefix is the comment
//! prefix `//`, followed by optional whitespace and one of the recognized
//! marker keywords with its colon (`FIXME:` is tried before `TODO:`). The
//! rest of the marker line, after optional whitespace, is the token's title.
//! The comment lines immediately below the marker line are absorbed, each
//! contributing its trimmed content to the token's message; the first line
//! that is not a comment line stops the absorption. A line that matches
//! neither pattern is skipped whole, so a malformed candidate never aborts
//! the scan.

use vstd::prelude::*;
use vstd::string::*;

use crate::render;
use crate::text;
use crate::text::{
    lines_spec, str_views, trim_spec, trim_start_spec, views_of,
};

verus! {

/// The classification of a recognized marker keyword.
#[derive(Debug, Clone, Copy, PartialEq, Eq, Structural)]
pub enum Kind {
    Todo,
    Fixme,
}

/// One extracted annotation.
pub struct Token {
    /// 1-based line number of the marker line.
    pub position: usize,
    /// Which marker keyword was recognized.
    pub kind: Kind,
    /// The rest of the marker line after the keyword, its colon, and
    /// optional whitespace, taken verbatim up to the end of the line.
    pub title: String,
    /// The trimmed contents of the comment lines absorbed below the
    /// marker line, in order.
    pub message: Vec<String>,
}

/// The mathematical value of a [`Token`].
pub struct TokenView {
    pub position: int,
    pub kind: Kind,
    pub title: Seq<char>,
    pub message: Seq<Seq<char>>,
}

impl View for Token {
    type V = TokenView;

    open spec fn view(&self) -> TokenView {
        TokenView {
            position: self.position as int,
            kind: self.kind,
            title: self.title@,
            message: str_views(self.message@),
        }
    }
}

/// The views of a sequence of tokens.
pub open spec fn token_views(ts: Seq<Token>) -> Seq<TokenView> {
    ts.map(|i: int, t: Token| t@)
}

proof fn lemma_token_views_push(ts: Seq<Token>, x: Token)
    ensures
        token_views(ts.push(x)) == token_views(ts).push(x@),
{
    assert(token_views(ts.push(x)) =~= token_views(ts).push(x@));
}

/// Whether the line, after leading whitespace, opens with the comment
/// prefix `//`.
pub open spec fn is_comment(l: Seq<char>) -> bool {
    let t = trim_start_spec(l);
    t.len() >= 2 && t[0] == '/' && t[1] == '/'
}

/// Everything after the comment prefix, for a comment line.
pub open spec fn comment_body(l: Seq<char>) -> Seq<char> {
    trim_start_spec(l).skip(2)
}

/// The trimmed content a comment line contributes to a message.
pub open spec fn msg_of(l: Seq<char>) -> Seq<char> {
    trim_spec(comment_body(l))
}

/// The comment body with the whitespace between prefix and keyword removed.
pub open spec fn keyword_rest(l: Seq<char>) -> Seq<char> {
    trim_start_spec(comment_body(l))
}

/// Whether the sequence opens with the keyword `FIXME` and its colon.
pub open spec fn starts_fixme(c: Seq<char>) -> bool {
    c.len() >= 6 && c[0] == 'F' && c[1] == 'I' && c[2] == 'X' && c[3] == 'M' && c[4] == 'E'
        && c[5] == ':'
}

/// Whether the sequence opens with the keyword `TODO` and its colon.
pub open spec fn starts_todo(c: Seq<char>) -> bool {
    c.len() >= 5 && c[0] == 'T' && c[1] == 'O' && c[2] == 'D' && c[3] == 'O' && c[4] == ':'
}

/// Whether the line is a marker line: a comment line whose body, after
/// optional whitespace, is a recognized keyword with its colon.
pub open spec fn is_marker(l: Seq<char>) -> bool {
    is_comment(l) && (starts_fixme(keyword_rest(l)) || starts_todo(keyword_rest(l)))
}

/// The kind of a marker line; `FIXME` takes precedence.
pub open spec fn marker_kind(l: Seq<char>) -> Kind {
    if starts_fixme(keyword_rest(l)) {
        Kind::Fixme
    } else {
        Kind::Todo
    }
}

/// The title of a marker line: what follows the keyword's colon, with
/// leading whitespace skipped, verbatim to the end of the line.
pub open spec fn marker_title(l: Seq<char>) -> Seq<char> {
    if starts_fixme(keyword_rest(l)) {
        trim_start_spec(keyword_rest(l).skip(6))
    } else {
        trim_start_spec(keyword_rest(l).skip(5))
    }
}

/// How many lines at the front of `ls` are comment lines.
pub open spec fn run_len(ls: Seq<Seq<char>>) -> nat
    decreases ls.len(),
{
    if ls.len() > 0 && is_comment(ls[0]) {
        1 + run_len(ls.drop_first())
    } else {
        0
    }
}

/// The messages contributed by the leading run of comment lines of `ls`.
pub open spec fn run_msgs(ls: Seq<Seq<char>>) -> Seq<Seq<char>> {
    Seq::new(run_len(ls), |k: int| msg_of(ls[k]))
}

pub proof fn lemma_run_len_le(ls: Seq<Seq<char>>)
    ensures
        run_len(ls) <= ls.len(),
    decreases ls.len(),
{
    if ls.len() > 0 && is_comment(ls[0]) {
        lemma_run_len_le(ls.drop_first());
    }
}

/// Law of interruption: a continuation run never reaches past a line that
/// is no comment line, wherever comment lines resume below it.
pub proof fn lemma_run_stops_at_noncomment(ls: Seq<Seq<char>>, k: int)
    requires
        0 <= k < ls.len(),
        !is_comment(ls[k]),
    ensures
        run_len(ls) <= k,
    decreases k,
{
    if ls.len() > 0 && is_comment(ls[0]) {
        assert(ls.drop_first()[k - 1] == ls[k]);
        lemma_run_stops_at_noncomment(ls.drop_first(), k - 1);
    }
}

pub proof fn lemma_run_len_at(ls: Seq<Seq<char>>, m: int)
    requires
        0 <= m <= ls.len(),
        forall|k: int| 0 <= k < m ==> is_comment(ls[k]),
        m == ls.len() || !is_comment(ls[m]),
    ensures
        run_len(ls) == m,
    decreases m,
{
    if m == 0 {
    } else {
        assert(is_comment(ls[0]));
        assert forall|k: int| 0 <= k < m - 1 implies is_comment(ls.drop_first()[k]) by {
            assert(ls.drop_first()[k] == ls[k + 1]);
        }
        if m < ls.len() {
            assert(ls.drop_first()[m - 1] == ls[m]);
        }
        lemma_run_len_at(ls.drop_first(), m - 1);
    }
}

/// The tokens the scanner extracts from the lines `ls`, the first of which
/// stands at line number `n`.
pub open spec fn scan_spec(ls: Seq<Seq<char>>, n: int) -> Seq<TokenView>
    decreases ls.len() via scan_spec_decreases
{
    if ls.len() == 0 {
        Seq::empty()
    } else if is_marker(ls[0]) {
        let m = run_len(ls.skip(1)) as int;
        seq![
            TokenView {
                position: n,
                kind: marker_kind(ls[0]),
                title: marker_title(ls[0]),
                message: run_msgs(ls.skip(1)),
            },
        ] + scan_spec(ls.skip(1 + m), n + 1 + m)
    } else {
        scan_spec(ls.skip(1), n + 1)
    }
}

#[via_fn]
proof fn scan_spec_decreases(ls: Seq<Seq<char>>, n: int) {
    if ls.len() > 0 && is_marker(ls[0]) {
        lemma_run_len_le(ls.skip(1));
    }
}

/// Recognizes the comment prefix. Returns the index just past `//`.
fn comment_start(l: &Vec<char>) -> (r: Option<usize>)
    ensures
        match r {
            Some(ci) => is_comment(l@) && ci <= l@.len() && comment_body(l@) == l@.skip(ci as int),
            None => !is_comment(l@),
        },
{
    let j = text::trim_from(l, 0);
    proof {
        assert(l@.skip(0) =~= l@);
    }
    if l.len() >= 2 && j <= l.len() - 2 && l[j] == '/' && l[j + 1] == '/' {
        proof {
            assert(trim_start_spec(l@)[0] == l@[j as int]);
            assert(trim_start_spec(l@)[1] == l@[j + 1]);
            assert(l@.skip(j as int).skip(2) =~= l@.skip(j + 2));
        }
        Some(j + 2)
    } else {
        proof {
            let t = trim_start_spec(l@);
            if t.len() >= 2 {
                assert(t[0] == l@[j as int]);
                assert(t[1] == l@[j + 1]);
            }
        }
        None
    }
}

/// Recognizes a marker line. Returns its kind and the index where the
/// title begins.
fn parse_marker(l: &Vec<char>) -> (r: Option<(Kind, usize)>)
    ensures
        match r {
            Some(p) => is_marker(l@) && p.1 <= l@.len() && p.0 == marker_kind(l@) && marker_title(
                l@,
            ) == l@.skip(p.1 as int),
            None => !is_marker(l@),
        },
{
    let ci = match comment_start(l) {
        Some(ci) => ci,
        None => {
            return None;
        },
    };
    let m = text::trim_from(l, ci);
    proof {
        assert(keyword_rest(l@) == l@.skip(m as int));
    }
    let n = l.len();
    if n - m >= 6 && l[m] == 'F' && l[m + 1] == 'I' && l[m + 2] == 'X' && l[m + 3] == 'M' && l[m
        + 4] == 'E' && l[m + 5] == ':' {
        let ts = text::trim_from(l, m + 6);
        proof {
            assert(starts_fixme(keyword_rest(l@)));
            assert(keyword_rest(l@).skip(6) =~= l@.skip(m + 6));
        }
        Some((Kind::Fixme, ts))
    } else if n - m >= 5 && l[m] == 'T' && l[m + 1] == 'O' && l[m + 2] == 'D' && l[m + 3] == 'O'
        && l[m + 4] == ':' {
        let ts = text::trim_from(l, m + 5);
        proof {
            assert(!starts_fixme(keyword_rest(l@)));
            assert(starts_todo(keyword_rest(l@)));
            assert(keyword_rest(l@).skip(5) =~= l@.skip(m + 5));
        }
        Some((Kind::Todo, ts))
    } else {
        proof {
            let c = keyword_rest(l@);
            assert(c.len() == l@.len() - m);
            assert(!starts_fixme(c) && !starts_todo(c));
        }
        None
    }
}

/// Recognizes a continuation line. Returns its trimmed content.
fn comment_message(l: &Vec<char>) -> (r: Option<String>)
    ensures
        match r {
            Some(s) => is_comment(l@) && s@ == msg_of(l@),
            None => !is_comment(l@),
        },
{
    let ci = match comment_start(l) {
        Some(ci) => ci,
        None => {
            return None;
        },
    };
    let ms = text::trim_from(l, ci);
    let me = text::trim_end_from(l, ms);
    let sub = text::subvec(l, ms, me);
    proof {
        assert(msg_of(l@) == l@.subrange(ms as int, me as int));
    }
    Some(text::string_from_chars(&sub))
}

/// Scans the whole text of one file and returns every annotation token,
/// in source order. Input with no recognizable marker yields the empty
/// vector; no input is an error.
pub fn parser_file(src: &str) -> (tokens: Vec<Token>)
    ensures
        token_views(tokens@) == scan_spec(lines_spec(src@), 1),
{
    let chars = text::chars_of(src);
    let lines = text::split_lines(&chars);
    let ghost ls = views_of(lines@);
    let mut tokens: Vec<Token> = Vec::new();
    let mut i: usize = 0;
    proof {
        assert(ls.skip(0) =~= ls);
        assert(token_views(tokens@) + scan_spec(ls, 1) =~= scan_spec(ls, 1));
    }
    while i < lines.len()
        invariant
            i <= lines@.len(),
            ls == views_of(lines@),
            ls.len() == lines@.len(),
            scan_spec(ls, 1) == token_views(tokens@) + scan_spec(ls.skip(i as int), i + 1),
        decreases lines@.len() - i,
    {
        let li = &lines[i];
        proof {
            assert(li@ == ls[i as int]);
        }
        match parse_marker(li) {
            Some((kind, ts)) => {
                let sub = text::subvec(li, ts, li.len());
                let title = text::string_from_chars(&sub);
                proof {
                    assert(li@.subrange(ts as int, li@.len() as int) =~= li@.skip(ts as int));
                }
                let position = i + 1;
                let mut message: Vec<String> = Vec::new();
                let mut j = i + 1;
                proof {
                    assert(str_views(message@) =~= Seq::new(
                        (j - i - 1) as nat,
                        |k: int| msg_of(ls[i + 1 + k]),
                    ));
                }
                loop
                    invariant_except_break
                        i + 1 <= j <= lines@.len(),
                        ls == views_of(lines@),
                        ls.len() == lines@.len(),
                        forall|k: int| i + 1 <= k < j ==> is_comment(ls[k]),
                        str_views(message@) == Seq::new(
                            (j - i - 1) as nat,
                            |k: int| msg_of(ls[i + 1 + k]),
                        ),
                    ensures
                        i + 1 <= j <= lines@.len(),
                        forall|k: int| i + 1 <= k < j ==> is_comment(ls[k]),
                        j == lines@.len() || !is_comment(ls[j as int]),
                        str_views(message@) == Seq::new(
                            (j - i - 1) as nat,
                            |k: int| msg_of(ls[i + 1 + k]),
                        ),
                    decreases lines@.len() - j,
                {
                    if j >= lines.len() {
                        break ;
                    }
                    let lj = &lines[j];
                    proof {
                        assert(lj@ == ls[j as int]);
                    }
                    match comment_message(lj) {
                        Some(s) => {
                            proof {
                                text::lemma_str_views_push(message@, s);
                                assert(str_views(message@).push(s@) =~= Seq::new(
                                    (j - i) as nat,
                                    |k: int| msg_of(ls[i + 1 + k]),
                                ));
                            }
                            message.push(s);
                            j = j + 1;
                        },
                        None => {
                            break ;
                        },
                    }
                }
                let token = Token { position, kind, title, message };
                proof {
                    let cur = ls.skip(i as int);
                    let tail = ls.skip(i + 1);
                    assert(cur[0] == ls[i as int]);
                    assert(is_marker(cur[0]));
                    assert(forall|k: int|
                        0 <= k < j - i - 1 ==> #[trigger] tail[k] == ls[i + 1 + k]);
                    if j < ls.len() {
                        assert(tail[j - i - 1] == ls[j as int]);
                    }
                    lemma_run_len_at(tail, j - i - 1);
                    assert(cur.skip(1) =~= tail);
                    let m = run_len(tail) as int;
                    assert(m == j - i - 1);
                    assert(run_msgs(tail) =~= str_views(message@));
                    assert(token@ == TokenView {
                        position: i + 1,
                        kind: marker_kind(cur[0]),
                        title: marker_title(cur[0]),
                        message: run_msgs(cur.skip(1)),
                    });
                    assert(scan_spec(cur, i + 1) == seq![token@] + scan_spec(
                        cur.skip(1 + m),
                        i + 1 + 1 + m,
                    ));
                    assert(cur.skip(1 + m) =~= ls.skip(j as int));
                    lemma_token_views_push(tokens@, token);
                    assert(token_views(tokens@).push(token@) + scan_spec(ls.skip(j as int), j + 1)
                        =~= token_views(tokens@) + scan_spec(cur, i + 1));
                }
                tokens.push(token);
                i = j;
            },
            None => {
                proof {
                    let cur = ls.skip(i as int);
                    assert(cur[0] == ls[i as int]);
                    assert(!is_marker(cur[0]));
                    assert(cur.skip(1) =~= ls.skip(i + 1));
                }
                i = i + 1;
            },
        }
    }
    proof {
        assert(ls.skip(i as int) =~= Seq::<Seq<char>>::empty());
        assert(token_views(tokens@) + Seq::<TokenView>::empty() =~= token_views(tokens@));
    }
    tokens
}

/// Law of recovery: a text none of whose lines is a marker line yields no
/// tokens, whatever line number the scan starts at.
pub proof fn lemma_no_marker_no_tokens(ls: Seq<Seq<char>>, n: int)
    requires
        forall|k: int| 0 <= k < ls.len() ==> !is_marker(ls[k]),
    ensures
        scan_spec(ls, n) == Seq::<TokenView>::empty(),
    decreases ls.len(),
{
    if ls.len() > 0 {
        assert forall|k: int| 0 <= k < ls.skip(1).len() implies !is_marker(ls.skip(1)[k]) by {
            assert(ls.skip(1)[k] == ls[k + 1]);
        }
        lemma_no_marker_no_tokens(ls.skip(1), n + 1);
    }
}

/// Law of recovery, stated on a whole text: with no marker line in it, the
/// scan returns the empty sequence.
pub proof fn lemma_scan_markerless_text(text: Seq<char>)
    requires
        forall|k: int|
            0 <= k < lines_spec(text).len() ==> !is_marker(#[trigger] lines_spec(text)[k]),
    ensures
        scan_spec(lines_spec(text), 1) == Seq::<TokenView>::empty(),
{
    lemma_no_marker_no_tokens(lines_spec(text), 1);
}

/// Every token's position lies in the scanned range, and the line it names
/// is a marker line.
pub proof fn lemma_positions_bounds(ls: Seq<Seq<char>>, n: int)
    ensures
        forall|k: int|
            0 <= k < scan_spec(ls, n).len() ==> n <= #[trigger] scan_spec(ls, n)[k].position < n
                + ls.len() && is_marker(ls[scan_spec(ls, n)[k].position - n]),
    decreases ls.len(),
{
    if ls.len() == 0 {
    } else if is_marker(ls[0]) {
        let m = run_len(ls.skip(1)) as int;
        lemma_run_len_le(ls.skip(1));
        lemma_positions_bounds(ls.skip(1 + m), n + 1 + m);
        let head = scan_spec(ls, n)[0];
        let rest = scan_spec(ls.skip(1 + m), n + 1 + m);
        assert forall|k: int|
            0 <= k < scan_spec(ls, n).len() implies n <= #[trigger] scan_spec(ls, n)[k].position
            < n + ls.len() && is_marker(ls[scan_spec(ls, n)[k].position - n]) by {
            if k == 0 {
                assert(scan_spec(ls, n)[0].position == n);
            } else {
                assert(scan_spec(ls, n)[k] == rest[k - 1]);
                let p = rest[k - 1].position;
                assert(ls.skip(1 + m)[p - (n + 1 + m)] == ls[p - n]);
            }
        }
    } else {
        lemma_positions_bounds(ls.skip(1), n + 1);
        assert forall|k: int|
            0 <= k < scan_spec(ls, n).len() implies n <= #[trigger] scan_spec(ls, n)[k].position
            < n + ls.len() && is_marker(ls[scan_spec(ls, n)[k].position - n]) by {
            assert(scan_spec(ls, n)[k] == scan_spec(ls.skip(1), n + 1)[k]);
            let p = scan_spec(ls.skip(1), n + 1)[k].position;
            assert(ls.skip(1)[p - (n + 1)] == ls[p - n]);
        }
    }
}

/// Law of order preservation: the tokens' positions are strictly
/// increasing, so tokens come out in source order.
pub proof fn lemma_positions_increasing(ls: Seq<Seq<char>>, n: int)
    ensures
        forall|a: int, b: int|
            0 <= a < b < scan_spec(ls, n).len() ==> #[trigger] scan_spec(ls, n)[a].position
                < #[trigger] scan_spec(ls, n)[b].position,
    decreases ls.len(),
{
    if ls.len() == 0 {
    } else if is_marker(ls[0]) {
        let m = run_len(ls.skip(1)) as int;
        lemma_run_len_le(ls.skip(1));
        lemma_positions_increasing(ls.skip(1 + m), n + 1 + m);
        lemma_positions_bounds(ls.skip(1 + m), n + 1 + m);
        let rest = scan_spec(ls.skip(1 + m), n + 1 + m);
        assert forall|a: int, b: int|
            0 <= a < b < scan_spec(ls, n).len() implies #[trigger] scan_spec(ls, n)[a].position
            < #[trigger] scan_spec(ls, n)[b].position by {
            assert(scan_spec(ls, n)[b] == rest[b - 1]);
            if a == 0 {
                assert(scan_spec(ls, n)[0].position == n);
                assert(rest[b - 1].position >= n + 1 + m);
            } else {
                assert(scan_spec(ls, n)[a] == rest[a - 1]);
            }
        }
    } else {
        lemma_positions_increasing(ls.skip(1), n + 1);
        assert forall|a: int, b: int|
            0 <= a < b < scan_spec(ls, n).len() implies #[trigger] scan_spec(ls, n)[a].position
            < #[trigger] scan_spec(ls, n)[b].position by {
            assert(scan_spec(ls, n)[a] == scan_spec(ls.skip(1), n + 1)[a]);
            assert(scan_spec(ls, n)[b] == scan_spec(ls.skip(1), n + 1)[b]);
        }
    }
}

/// The name of a kind, as it appears in issue titles and link labels.
pub open spec fn kind_name(k: Kind) -> Seq<char> {
    match k {
        Kind::Todo => "Todo"@,
        Kind::Fixme => "Fixme"@,
    }
}

impl Kind {
    /// The kind's name as a string.
    pub fn name(&self) -> (r: String)
        ensures
            r@ == kind_name(*self),
    {
        match self {
            Kind::Todo => String::from_str("Todo"),
            Kind::Fixme => String::from_str("Fixme"),
        }
    }
}

/// The part of `filename` that follows the last occurrence of `repo`, with
/// a `/` put in front where one is missing.
pub open spec fn link_path(filename: Seq<char>, repo: Seq<char>) -> Seq<char> {
    let tail = render::after_splits(filename, repo);
    if tail.len() > 0 && tail[0] == '/' {
        tail
    } else {
        seq!['/'] + tail
    }
}

fn link_path_exec(filename: &str, repo: &str) -> (r: String)
    ensures
        r@ == link_path(filename@, repo@),
{
    let f = text::chars_of(filename);
    let p = text::chars_of(repo);
    let tail = render::last_split_tail(&f, &p);
    if tail.len() > 0 && tail[0] == '/' {
        text::string_from_chars(&tail)
    } else {
        let mut out = String::from_str("/");
        let t = text::string_from_chars(&tail);
        out.append(t.as_str());
        proof {
            reveal_strlit("/");
            assert(out@ =~= seq!['/'] + tail@);
        }
        out
    }
}

/// The issue body rendered from a token: the message lines joined with
/// newlines, a closing newline, and a markdown link to the marker's line
/// in the repository.
pub open spec fn body_spec(
    t: TokenView,
    username: Seq<char>,
    repo: Seq<char>,
    branch: Seq<char>,
    filename: Seq<char>,
) -> Seq<char> {
    render::join_nl(t.message) + "\n"@ + "["@ + kind_name(t.kind) + "]("@
        + "http://github.com/"@ + username + "/"@ + repo + "/blob/"@ + branch + link_path(
        filename,
        repo,
    ) + "#L"@ + render::dec_str(t.position as nat) + ")"@
}

impl Token {
    /// The issue body for this token, as [`body_spec`] describes it.
    pub fn body(&self, username: &str, repo: &str, branch: &str, filename: &str) -> (r: String)
        ensures
            r@ == body_spec(self@, username@, repo@, branch@, filename@),
    {
        let ghost msgs = str_views(self.message@);
        let mut r = String::new();
        let mut idx: usize = 0;
        proof {
            assert(msgs.take(0) =~= Seq::<Seq<char>>::empty());
        }
        while idx < self.message.len()
            invariant
                idx <= self.message@.len(),
                msgs == str_views(self.message@),
                r@ == render::join_nl(msgs.take(idx as int)),
            decreases self.message@.len() - idx,
        {
            proof {
                render::lemma_join_nl_push(msgs.take(idx as int), msgs[idx as int]);
                assert(msgs.take(idx as int).push(msgs[idx as int]) =~= msgs.take(idx + 1));
                reveal_strlit("\n");
                assert("\n"@ =~= seq!['\n']);
            }
            if idx > 0 {
                r.append("\n");
            }
            let m = &self.message[idx];
            proof {
                assert(m@ == msgs[idx as int]);
            }
            r.append(m.as_str());
            idx = idx + 1;
        }
        proof {
            assert(msgs.take(self.message@.len() as int) =~= msgs);
        }
        r.append("\n");
        r.append("[");
        let kn = self.kind.name();
        r.append(kn.as_str());
        r.append("](");
        r.append("http://github.com/");
        r.append(username);
        r.append("/");
        r.append(repo);
        r.append("/blob/");
        r.append(branch);
        let lp = link_path_exec(filename, repo);
        r.append(lp.as_str());
        r.append("#L");
        let ln = render::usize_to_string(self.position);
        r.append(ln.as_str());
        r.append(")");
        proof {
            assert(r@ =~= body_spec(self@, username@, repo@, branch@, filename@));
        }
        r
    }
}

/// The positions of a sequence of tokens.
pub open spec fn positions_of(ts: Seq<TokenView>) -> Seq<int> {
    ts.map(|i: int, t: TokenView| t.position)
}

/// The line numbers of the marker lines among `ls`, the first of which
/// stands at line number `n`.
pub open spec fn marker_positions(ls: Seq<Seq<char>>, n: int) -> Seq<int>
    decreases ls.len(),
{
    if ls.len() == 0 {
        Seq::empty()
    } else if is_marker(ls[0]) {
        seq![n] + marker_positions(ls.drop_first(), n + 1)
    } else {
        marker_positions(ls.drop_first(), n + 1)
    }
}

proof fn lemma_marker_positions_skip(ls: Seq<Seq<char>>, n: int, k: int)
    requires
        0 <= k <= ls.len(),
        forall|i: int| 0 <= i < k ==> !is_marker(ls[i]),
    ensures
        marker_positions(ls, n) == marker_positions(ls.skip(k), n + k),
    decreases k,
{
    if k == 0 {
        assert(ls.skip(0) =~= ls);
    } else {
        assert(!is_marker(ls[0]));
        assert forall|i: int| 0 <= i < k - 1 implies !is_marker(ls.drop_first()[i]) by {
            assert(ls.drop_first()[i] == ls[i + 1]);
        }
        lemma_marker_positions_skip(ls.drop_first(), n + 1, k - 1);
        assert(ls.drop_first().skip(k - 1) =~= ls.skip(k));
    }
}

proof fn lemma_run_len_comments(t: Seq<Seq<char>>)
    ensures
        forall|k: int| 0 <= k < run_len(t) ==> is_comment(t[k]),
    decreases t.len(),
{
    if t.len() > 0 && is_comment(t[0]) {
        lemma_run_len_comments(t.drop_first());
        lemma_run_len_le(t.drop_first());
        assert forall|k: int| 0 <= k < run_len(t) implies is_comment(t[k]) by {
            if k > 0 {
                assert(is_comment(t.drop_first()[k - 1]));
                assert(t.drop_first()[k - 1] == t[k]);
            }
        }
    }
}

/// Law of order preservation, in its exact form: where no marker line
/// stands directly below a comment line, the tokens' positions are exactly
/// the line numbers of the marker lines, in source order. (A marker line
/// directly below a comment line can be absorbed into a running message
/// and then yields no token of its own.)
pub proof fn lemma_positions_exact(ls: Seq<Seq<char>>, n: int)
    requires
        forall|i: int| 0 < i < ls.len() && is_marker(ls[i]) ==> !is_comment(ls[i - 1]),
    ensures
        positions_of(scan_spec(ls, n)) == marker_positions(ls, n),
    decreases ls.len(),
{
    if ls.len() == 0 {
        assert(positions_of(scan_spec(ls, n)) =~= marker_positions(ls, n));
    } else if is_marker(ls[0]) {
        let m = run_len(ls.skip(1)) as int;
        lemma_run_len_le(ls.skip(1));
        lemma_run_len_comments(ls.skip(1));
        assert forall|j: int| 1 <= j < 1 + m implies is_comment(ls[j]) by {
            assert(is_comment(ls.skip(1)[j - 1]));
        }
        assert forall|j: int| 1 <= j < 1 + m implies !is_marker(ls[j]) by {
            if is_marker(ls[j]) {
                assert(!is_comment(ls[j - 1]));
                if j == 1 {
                    assert(is_comment(ls[0]));
                }
            }
        }
        assert forall|i: int|
            0 < i < ls.skip(1 + m).len() && #[trigger] is_marker(ls.skip(1 + m)[i])
            implies !is_comment(ls.skip(1 + m)[i - 1]) by {
            assert(ls.skip(1 + m)[i] == ls[1 + m + i]);
            assert(ls.skip(1 + m)[i - 1] == ls[1 + m + i - 1]);
        }
        lemma_positions_exact(ls.skip(1 + m), n + 1 + m);
        assert forall|i: int| 0 <= i < m implies !is_marker(ls.drop_first()[i]) by {
            assert(ls.drop_first()[i] == ls[i + 1]);
        }
        lemma_marker_positions_skip(ls.drop_first(), n + 1, m);
        assert(ls.drop_first().skip(m) =~= ls.skip(1 + m));
        let rest = scan_spec(ls.skip(1 + m), n + 1 + m);
        assert(positions_of(scan_spec(ls, n)) =~= seq![n] + positions_of(rest));
    } else {
        assert forall|i: int|
            0 < i < ls.skip(1).len() && #[trigger] is_marker(ls.skip(1)[i])
            implies !is_comment(ls.skip(1)[i - 1]) by {
            assert(ls.skip(1)[i] == ls[i + 1]);
            assert(ls.skip(1)[i - 1] == ls[i]);
        }
        lemma_positions_exact(ls.skip(1), n + 1);
        assert(ls.skip(1) =~= ls.drop_first());
    }
}

/// Law of recovery for one line: a line that is no marker line produces no
/// token, and scanning continues with the next line.
pub proof fn lemma_nonmarker_skipped(ls: Seq<Seq<char>>, n: int)
    requires
        ls.len() > 0,
        !is_marker(ls[0]),
    ensures
        scan_spec(ls, n) == scan_spec(ls.drop_first(), n + 1),
{
    assert(ls.skip(1) =~= ls.drop_first());
}

} // verus!
