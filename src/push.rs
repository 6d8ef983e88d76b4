//! The push notification as the repository host sends it, and the edit
//! summary made from it.
use vstd::prelude::*;

verus! {

#[derive(Clone, Debug)]
pub struct GitHubAuthor {
    pub name: String,
}

#[derive(Clone, Debug)]
pub struct GitHubCommit {
    pub author: GitHubAuthor,
    pub committer: GitHubAuthor,
    pub message: String,
    pub added: Vec<String>,
    pub modified: Vec<String>,
}

#[derive(Clone, Debug)]
pub struct Repository {
    pub html_url: String,
    /// Holds the literal placeholder `{+path}`.
    pub contents_url: String,
}

/// One push notification. `retry` is set once the event has been put back
/// on the queue after a routing miss, and never reset.
#[derive(Clone, Debug)]
pub struct GitHubPush {
    pub compare: String,
    pub commits: Vec<GitHubCommit>,
    pub ref_: String,
    pub repository: Repository,
    pub retry: bool,
}

/// The part of the edit summary that speaks of the commits.
#[derive(Clone, Debug)]
pub enum Commits {
    /// commit message
    Single(String),
    /// number of commits
    Multiple(usize),
}

/// What the edit summary is made of.
#[derive(Clone, Debug)]
pub struct Push {
    pub commits: Commits,
    /// Distinct names, in the order in which they first appear.
    pub authors: Vec<String>,
    pub url: String,
}

/// Credentials read at start-up.
pub struct Secrets {
    pub oauth_token: String,
}

pub open spec fn strs(v: Seq<String>) -> Seq<Seq<char>> {
    v.map_values(|s: String| s@)
}

pub open spec fn digit(d: nat) -> char {
    seq!['0', '1', '2', '3', '4', '5', '6', '7', '8', '9'][d as int]
}

/// Decimal notation of `n`, without leading zeros.
pub open spec fn decimal(n: nat) -> Seq<char>
    decreases n,
{
    if n < 10 {
        seq![digit(n)]
    } else {
        decimal(n / 10).push(digit(n % 10))
    }
}

/// The names separated by `", "`.
pub open spec fn join(names: Seq<Seq<char>>) -> Seq<char>
    decreases names.len(),
{
    if names.len() == 0 {
        Seq::empty()
    } else if names.len() == 1 {
        names[0]
    } else {
        join(names.drop_last()) + ", "@ + names.last()
    }
}

/// Up to three names are listed; more are cut to the first and a count.
pub open spec fn authors_text(names: Seq<Seq<char>>) -> Seq<char> {
    if names.len() <= 3 {
        join(names)
    } else {
        names[0] + " and "@ + decimal((names.len() - 1) as nat) + " others"@
    }
}

pub open spec fn commits_text(c: Commits) -> Seq<char> {
    match c {
        Commits::Single(m) => m@,
        Commits::Multiple(n) => decimal(n as nat) + " commits"@,
    }
}

/// `"<authors>: <commits> (<url>)"`.
pub open spec fn summary_text(p: Push) -> Seq<char> {
    authors_text(strs(p.authors@)) + ": "@ + commits_text(p.commits) + " ("@ + p.url@ + ")"@
}

/// Appends the decimal notation of `n` to `out`.
pub fn push_decimal(out: &mut String, n: usize)
    ensures
        final(out)@ == old(out)@ + decimal(n as nat),
    decreases n,
{
    if n >= 10 {
        push_decimal(out, n / 10);
    }
    let d: usize = n % 10;
    let digits = "0123456789";
    proof {
        reveal_strlit("0123456789");
    }
    let one = digits.substring_char(d, d + 1);
    assert(one@ =~= seq![digit(d as nat)]);
    out.append(one);
    proof {
        if n >= 10 {
            assert(decimal(n as nat) == decimal((n / 10) as nat).push(digit((n % 10) as nat)));
        }
    }
    assert(final(out)@ =~= old(out)@ + decimal(n as nat));
}

impl Push {
    pub fn into_edit_summary(self) -> (r: String)
        requires
            self.authors.len() > 0,
        ensures
            r@ == summary_text(self),
    {
        let names = &self.authors;
        let ghost ns = strs(names@);
        let mut out = String::new();
        if names.len() <= 3 {
            let mut i: usize = 0;
            while i < names.len()
                invariant
                    ns == strs(names@),
                    i <= names.len() <= 3,
                    out@ == join(ns.take(i as int)),
                decreases names.len() - i,
            {
                if i > 0 {
                    out.append(", ");
                }
                out.append(names[i].as_str());
                assert(ns.take(i + 1).drop_last() =~= ns.take(i as int));
                assert(out@ =~= join(ns.take(i + 1)));
                i = i + 1;
            }
            assert(ns.take(names.len() as int) =~= ns);
        } else {
            out.append(names[0].as_str());
            out.append(" and ");
            push_decimal(&mut out, names.len() - 1);
            out.append(" others");
        }
        assert(out@ == authors_text(ns));
        out.append(": ");
        match &self.commits {
            Commits::Single(m) => out.append(m.as_str()),
            Commits::Multiple(n) => {
                push_decimal(&mut out, *n);
                out.append(" commits");
            },
        }
        out.append(" (");
        out.append(self.url.as_str());
        out.append(")");
        assert(out@ =~= summary_text(self));
        out
    }
}

} // verus!
