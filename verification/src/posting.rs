//! The issue record built from a token, and the endpoint it is sent to.
//! Sending itself is network work and lives with the caller; this module
//! holds what can be computed from the token alone.

use vstd::prelude::*;
use vstd::string::*;

use crate::parser::{body_spec, kind_name, Token};
use crate::text::str_views;

verus! {

/// An issue ready for posting: a title, a body, and the (here always
/// empty) assignee and label lists.
#[derive(Debug)]
pub struct Issue {
    title: String,
    body: String,
    assignees: Vec<String>,
    labels: Vec<String>,
}

/// The mathematical value of an [`Issue`].
pub struct IssueView {
    pub title: Seq<char>,
    pub body: Seq<char>,
    pub assignees: Seq<Seq<char>>,
    pub labels: Seq<Seq<char>>,
}

impl View for Issue {
    type V = IssueView;

    closed spec fn view(&self) -> IssueView {
        IssueView {
            title: self.title@,
            body: self.body@,
            assignees: str_views(self.assignees@),
            labels: str_views(self.labels@),
        }
    }
}

impl Issue {
    /// The issue for one token: the kind's name, a colon and the token's
    /// title make the issue title; the rendered link body makes the body;
    /// nobody is assigned and nothing is labelled.
    pub fn from_token(
        token: &Token,
        owner: &str,
        repo: &str,
        branch: &str,
        filename: &str,
    ) -> (r: Issue)
        ensures
            r@.title == kind_name(token@.kind) + ": "@ + token@.title,
            r@.body == body_spec(token@, owner@, repo@, branch@, filename@),
            r@.assignees == Seq::<Seq<char>>::empty(),
            r@.labels == Seq::<Seq<char>>::empty(),
    {
        let mut title = token.kind.name();
        title.append(": ");
        title.append(token.title.as_str());
        let body = token.body(owner, repo, branch, filename);
        let assignees: Vec<String> = Vec::new();
        let labels: Vec<String> = Vec::new();
        proof {
            assert(str_views(assignees@) =~= Seq::<Seq<char>>::empty());
            assert(str_views(labels@) =~= Seq::<Seq<char>>::empty());
        }
        Issue { title, body, assignees, labels }
    }

    /// The issue's title.
    pub fn title(&self) -> (r: &String)
        ensures
            r@ == self@.title,
    {
        &self.title
    }

    /// The issue's body.
    pub fn body(&self) -> (r: &String)
        ensures
            r@ == self@.body,
    {
        &self.body
    }

    /// The issue's assignees.
    pub fn assignees(&self) -> (r: &Vec<String>)
        ensures
            str_views(r@) == self@.assignees,
    {
        &self.assignees
    }

    /// The issue's labels.
    pub fn labels(&self) -> (r: &Vec<String>)
        ensures
            str_views(r@) == self@.labels,
    {
        &self.labels
    }

    /// The printed form of the issue: its title, a newline, its body.
    pub fn to_display_string(&self) -> (r: String)
        ensures
            r@ == self@.title + "\n"@ + self@.body,
    {
        let mut r = self.title.clone();
        r.append("\n");
        r.append(self.body.as_str());
        r
    }
}

fn vec_string_eq(a: &Vec<String>, b: &Vec<String>) -> (r: bool)
    ensures
        r == (str_views(a@) == str_views(b@)),
{
    if a.len() != b.len() {
        proof {
            assert(str_views(a@).len() != str_views(b@).len());
        }
        return false;
    }
    let mut i: usize = 0;
    while i < a.len()
        invariant
            i <= a@.len(),
            a@.len() == b@.len(),
            forall|k: int| 0 <= k < i ==> str_views(a@)[k] == str_views(b@)[k],
        decreases a@.len() - i,
    {
        let x = &a[i];
        let y = &b[i];
        if !(*x == *y) {
            proof {
                assert(str_views(a@)[i as int] != str_views(b@)[i as int]);
            }
            return false;
        }
        i = i + 1;
    }
    proof {
        assert(str_views(a@) =~= str_views(b@));
    }
    true
}

impl PartialEq for Issue {
    fn eq(&self, other: &Self) -> (r: bool) {
        let t = self.title == other.title;
        let b = self.body == other.body;
        let s = vec_string_eq(&self.assignees, &other.assignees);
        let l = vec_string_eq(&self.labels, &other.labels);
        t && b && s && l
    }
}

impl vstd::std_specs::cmp::PartialEqSpecImpl for Issue {
    open spec fn obeys_eq_spec() -> bool {
        true
    }

    open spec fn eq_spec(&self, other: &Self) -> bool {
        self@ == other@
    }
}

/// The issues endpoint of a repository's tracker.
pub fn issues_url(owner: &str, repo: &str) -> (r: String)
    ensures
        r@ == "https://api.github.com/repos/"@ + owner@ + "/"@ + repo@ + "/issues"@,
{
    let mut r = String::from_str("https://api.github.com/repos/");
    r.append(owner);
    r.append("/");
    r.append(repo);
    r.append("/issues");
    r
}

} // verus!
