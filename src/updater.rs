//! Declaration headers of the form
//! `// {{Wikipedia:USync | repo = .. | ref = .. | path = ..}}`, the summary of
//! a push, and the checks made before a page is edited.
use vstd::prelude::*;
use crate::push::{
    Commits, GitHubCommit, GitHubPush, Push, authors_text, decimal, strs, summary_text,
};
use crate::text::{
    find_char, pos, range_ends_with, range_eq, range_starts_with, split, trim, trim_range,
    trim_start, skip_lead, replace, is_space, lemma_pos_concat, lemma_trim_unchanged,
    lemma_split_whole, lemma_split_concat, lead, replace_str, chars_of, first_line, line_from, same_text,
};

verus! {

/// A decoded declaration. Two headers are equal when all three fields are.
#[derive(Clone, Debug, Eq)]
pub struct Header {
    pub repo: String,
    pub ref_: String,
    pub path: String,
}

impl View for Header {
    type V = (Seq<char>, Seq<char>, Seq<char>);

    open spec fn view(&self) -> (Seq<char>, Seq<char>, Seq<char>) {
        (self.repo@, self.ref_@, self.path@)
    }
}

impl PartialEq for Header {
    fn eq(&self, o: &Header) -> (r: bool) {
        self.repo == o.repo && self.ref_ == o.ref_ && self.path == o.path
    }
}

impl vstd::std_specs::cmp::PartialEqSpecImpl for Header {
    open spec fn obeys_eq_spec() -> bool {
        true
    }

    open spec fn eq_spec(&self, o: &Header) -> bool {
        self@ == o@
    }
}

pub open spec fn starts(s: Seq<char>, p: Seq<char>) -> bool {
    p.len() <= s.len() && s.take(p.len() as int) == p
}

pub open spec fn ends(s: Seq<char>, p: Seq<char>) -> bool {
    p.len() <= s.len() && s.skip(s.len() - p.len()) == p
}

/// What stands between the marker and the closing braces of a line,
/// trimmed; `None` where the line is no declaration.
pub open spec fn line_declaration(l: Seq<char>) -> Option<Seq<char>> {
    let t = trim(l);
    if starts(t, "//"@) {
        let u = trim_start(t.skip("//"@.len() as int));
        if starts(u, "{{Wikipedia:USync"@) {
            let w = u.skip("{{Wikipedia:USync"@.len() as int);
            if ends(w, "}}"@) {
                Some(trim(w.take(w.len() - "}}"@.len())))
            } else {
                None
            }
        } else {
            None
        }
    } else {
        None
    }
}

/// The declaration on the first line of `s`, if there is one.
pub open spec fn declaration(s: Seq<char>) -> Option<Seq<char>> {
    if s.len() > 0 {
        line_declaration(first_line(s))
    } else {
        None
    }
}

/// The value that the fragment `key = value` gives to `key`.
pub open spec fn field_of(frag: Seq<char>, key: Seq<char>) -> Option<Seq<char>> {
    let f = trim(frag);
    let e = pos(f, '=');
    if e < f.len() && trim(f.take(e as int)) == key {
        Some(trim(f.skip(e + 1 as int)))
    } else {
        None
    }
}

/// The value of `key` in the last fragment that sets it.
pub open spec fn lookup_field(frags: Seq<Seq<char>>, key: Seq<char>) -> Option<Seq<char>>
    decreases frags.len(),
{
    if frags.len() == 0 {
        None
    } else {
        match field_of(frags.last(), key) {
            Some(v) => Some(v),
            None => lookup_field(frags.drop_last(), key),
        }
    }
}

/// The header that the content `s` declares, if it declares one.
pub open spec fn decode(s: Seq<char>) -> Option<(Seq<char>, Seq<char>, Seq<char>)> {
    match declaration(s) {
        None => None,
        Some(b) => {
            let fs = split(b, '|');
            match (
                lookup_field(fs, "repo"@),
                lookup_field(fs, "ref"@),
                lookup_field(fs, "path"@),
            ) {
                (Some(repo), Some(r), Some(path)) => Some((repo, r, path)),
                _ => None,
            }
        },
    }
}

/// A value that a declaration can carry: not empty, no whitespace at either
/// end, and no `|` or line feed inside.
pub open spec fn valid_value(v: Seq<char>) -> bool {
    &&& v.len() > 0
    &&& !is_space(v[0])
    &&& !is_space(v.last())
    &&& forall|i: int| 0 <= i < v.len() ==> v[i] != '|' && v[i] != '\n'
}

/// The first line that declares `repo`, `r` and `path`.
pub open spec fn declaration_line(repo: Seq<char>, r: Seq<char>, path: Seq<char>) -> Seq<char> {
    "// {{Wikipedia:USync"@ + "|repo="@ + repo + "|ref="@ + r + "|path="@ + path + "}}"@
}

/// The fragment `k=v` sets `k`, and only `k`, to `v`.
proof fn lemma_field(k: Seq<char>, v: Seq<char>, key: Seq<char>)
    requires
        k.len() > 0,
        !is_space(k[0]),
        !is_space(k.last()),
        forall|i: int| 0 <= i < k.len() ==> k[i] != '=',
        valid_value(v),
    ensures
        field_of(k + seq!['='] + v, key) == if k == key {
            Some(v)
        } else {
            None
        },
{
    let f = k + seq!['='] + v;
    assert(f[0] == k[0]);
    assert(f.last() == v.last());
    lemma_trim_unchanged(f);
    assert(f =~= k + (seq!['='] + v));
    lemma_pos_concat(k, seq!['='] + v, '=');
    assert(pos(seq!['='] + v, '=') == 0);
    assert(f.take(k.len() as int) =~= k);
    lemma_trim_unchanged(k);
    assert(f.skip(k.len() + 1 as int) =~= v);
    lemma_trim_unchanged(v);
}

/// The fragments that follow the marker on a declaration line.
pub open spec fn declaration_body(repo: Seq<char>, r: Seq<char>, path: Seq<char>) -> Seq<char> {
    seq!['|'] + ("repo"@ + seq!['='] + repo) + seq!['|'] + ("ref"@ + seq!['='] + r) + seq!['|'] + (
    "path"@ + seq!['='] + path)
}

proof fn lemma_line_holds_body(repo: Seq<char>, r: Seq<char>, path: Seq<char>)
    requires
        valid_value(repo),
        valid_value(r),
        valid_value(path),
    ensures
        line_declaration(declaration_line(repo, r, path)) == Some(declaration_body(repo, r, path)),
        forall|i: int|
            0 <= i < declaration_line(repo, r, path).len() ==> declaration_line(repo, r, path)[i]
                != '\n',
{
    reveal_strlit("// {{Wikipedia:USync");
    reveal_strlit("{{Wikipedia:USync");
    reveal_strlit("//");
    reveal_strlit("|repo=");
    reveal_strlit("|ref=");
    reveal_strlit("|path=");
    reveal_strlit("}}");
    reveal_strlit("repo");
    reveal_strlit("ref");
    reveal_strlit("path");
    let body = declaration_body(repo, r, path);
    let marker = "{{Wikipedia:USync"@;
    let line = declaration_line(repo, r, path);
    assert(line =~= "//"@ + seq![' '] + marker + body + "}}"@);
    assert forall|i: int| 0 <= i < line.len() implies line[i] != '\n' by {
        assert(line =~= "//"@ + seq![' '] + marker + seq!['|'] + "repo"@ + seq!['='] + repo
            + seq!['|'] + "ref"@ + seq!['='] + r + seq!['|'] + "path"@ + seq!['='] + path
            + "}}"@);
    }
    assert(line[0] == '/');
    assert(line.last() == '}');
    lemma_trim_unchanged(line);
    assert(line.take(2) =~= "//"@);
    let u0 = line.skip(2);
    assert(u0 =~= seq![' '] + marker + body + "}}"@);
    assert(u0.drop_first() =~= marker + body + "}}"@);
    assert(lead(u0.drop_first()) == 0);
    assert(lead(u0) == 1);
    let u = trim_start(u0);
    assert(u =~= marker + body + "}}"@);
    assert(u.take(marker.len() as int) =~= marker);
    let w = u.skip(marker.len() as int);
    assert(w =~= body + "}}"@);
    assert(w.skip(w.len() - 2) =~= "}}"@);
    assert(w.take(w.len() - 2) =~= body);
    assert(body[0] == '|');
    assert(body.last() == path.last());
    lemma_trim_unchanged(body);
}

proof fn lemma_body_fragments(repo: Seq<char>, r: Seq<char>, path: Seq<char>)
    requires
        valid_value(repo),
        valid_value(r),
        valid_value(path),
    ensures
        split(declaration_body(repo, r, path), '|') == seq![
            Seq::<char>::empty(),
            "repo"@ + seq!['='] + repo,
            "ref"@ + seq!['='] + r,
            "path"@ + seq!['='] + path,
        ],
{
    reveal_strlit("repo");
    reveal_strlit("ref");
    reveal_strlit("path");
    let fo = "repo"@ + seq!['='] + repo;
    let fr = "ref"@ + seq!['='] + r;
    let fp = "path"@ + seq!['='] + path;
    assert forall|i: int| 0 <= i < fo.len() implies fo[i] != '|' by {}
    assert forall|i: int| 0 <= i < fr.len() implies fr[i] != '|' by {}
    assert forall|i: int| 0 <= i < fp.len() implies fp[i] != '|' by {}
    lemma_split_whole(fo, '|');
    lemma_split_whole(fr, '|');
    lemma_split_whole(fp, '|');
    lemma_split_concat(fr, fp, '|');
    lemma_split_concat(fo, fr + seq!['|'] + fp, '|');
    lemma_split_concat(Seq::empty(), fo + seq!['|'] + (fr + seq!['|'] + fp), '|');
    assert(declaration_body(repo, r, path) =~= Seq::<char>::empty() + seq!['|'] + (fo + seq!['|']
        + (fr + seq!['|'] + fp)));
    assert(split(Seq::<char>::empty(), '|') == seq![Seq::<char>::empty()]);
    assert(split(declaration_body(repo, r, path), '|') =~= seq![Seq::<char>::empty(), fo, fr, fp]);
}

proof fn lemma_fragment_values(repo: Seq<char>, r: Seq<char>, path: Seq<char>)
    requires
        valid_value(repo),
        valid_value(r),
        valid_value(path),
    ensures
        ({
            let frags = seq![
                Seq::<char>::empty(),
                "repo"@ + seq!['='] + repo,
                "ref"@ + seq!['='] + r,
                "path"@ + seq!['='] + path,
            ];
            &&& lookup_field(frags, "repo"@) == Some(repo)
            &&& lookup_field(frags, "ref"@) == Some(r)
            &&& lookup_field(frags, "path"@) == Some(path)
        }),
{
    reveal_strlit("repo");
    reveal_strlit("ref");
    reveal_strlit("path");
    let fo = "repo"@ + seq!['='] + repo;
    let fr = "ref"@ + seq!['='] + r;
    let fp = "path"@ + seq!['='] + path;
    let frags = seq![Seq::<char>::empty(), fo, fr, fp];
    assert("repo"@[0] != "path"@[0]);
    assert("ref"@.len() != "path"@.len());
    assert("repo"@[2] != "ref"@[2]);
    lemma_field("path"@, path, "path"@);
    lemma_field("path"@, path, "repo"@);
    lemma_field("path"@, path, "ref"@);
    lemma_field("ref"@, r, "ref"@);
    lemma_field("ref"@, r, "repo"@);
    lemma_field("repo"@, repo, "repo"@);
    assert(frags.drop_last() =~= seq![Seq::<char>::empty(), fo, fr]);
    assert(frags.drop_last().drop_last() =~= seq![Seq::<char>::empty(), fo]);
    assert(lookup_field(frags, "path"@) == Some(path));
    assert(lookup_field(frags.drop_last(), "ref"@) == Some(r));
    assert(lookup_field(frags.drop_last().drop_last(), "repo"@) == Some(repo));
    assert(lookup_field(frags.drop_last(), "repo"@) == Some(repo));
}

/// A declaration line built from valid values decodes to exactly those
/// values, whatever follows it on later lines.
pub proof fn lemma_declaration_round_trip(
    repo: Seq<char>,
    r: Seq<char>,
    path: Seq<char>,
    rest: Seq<char>,
)
    requires
        valid_value(repo),
        valid_value(r),
        valid_value(path),
        rest.len() == 0 || rest[0] == '\n',
    ensures
        decode(declaration_line(repo, r, path) + rest) == Some((repo, r, path)),
{
    let line = declaration_line(repo, r, path);
    let s = line + rest;
    lemma_line_holds_body(repo, r, path);
    lemma_pos_concat(line, rest, '\n');
    assert(pos(rest, '\n') == 0);
    assert(first_line(s) =~= line);
    assert(s.len() > 0) by {
        reveal_strlit("// {{Wikipedia:USync");
    }
    assert(declaration(s) == Some(declaration_body(repo, r, path)));
    lemma_body_fragments(repo, r, path);
    lemma_fragment_values(repo, r, path);
}

/// A header is decoded only from a declaration that sets all three keys.
pub proof fn lemma_decode_needs_all_keys(s: Seq<char>)
    ensures
        decode(s) is Some ==> (declaration(s) matches Some(b) && lookup_field(
            split(b, '|'),
            "repo"@,
        ) is Some && lookup_field(split(b, '|'), "ref"@) is Some && lookup_field(
            split(b, '|'),
            "path"@,
        ) is Some),
{
}

pub open spec fn range_of(v: Seq<char>, r: Option<(usize, usize)>) -> Option<Seq<char>> {
    match r {
        Some((a, b)) => Some(v.subrange(a as int, b as int)),
        None => None,
    }
}

pub open spec fn range_ok(v: Seq<char>, r: Option<(usize, usize)>) -> bool {
    match r {
        Some((a, b)) => a <= b <= v.len(),
        None => true,
    }
}

/// Reads the fragment `x..y` for `key`, keeping `cur` where it does not set it.
fn fold_field(v: &Vec<char>, x: usize, y: usize, key: &str, cur: Option<(usize, usize)>) -> (r:
    Option<(usize, usize)>)
    requires
        x <= y <= v.len(),
        range_ok(v@, cur),
    ensures
        range_ok(v@, r),
        range_of(v@, r) == match field_of(v@.subrange(x as int, y as int), key@) {
            Some(val) => Some(val),
            None => range_of(v@, cur),
        },
{
    let ghost frag = v@.subrange(x as int, y as int);
    let (p, q) = trim_range(v, x, y);
    let ghost f = v@.subrange(p as int, q as int);
    let e = find_char(v, p, q, '=');
    if e == q {
        return cur;
    }
    let (k1, k2) = trim_range(v, p, e);
    assert(f.take((e - p) as int) =~= v@.subrange(p as int, e as int));
    if !range_eq(v, k1, k2, key) {
        return cur;
    }
    let (a, b) = trim_range(v, e + 1, q);
    assert(f.skip(e - p + 1) =~= v@.subrange(e + 1, q as int));
    Some((a, b))
}

/// The range of `v` that holds the fragments of its declaration.
fn declaration_range(v: &Vec<char>) -> (r: Option<(usize, usize)>)
    ensures
        range_ok(v@, r),
        range_of(v@, r) == line_declaration(v@),
{
    let len = v.len();
    assert(v@.subrange(0, len as int) =~= v@);
    let (a, b) = trim_range(v, 0, len);
    let ghost t = v@.subrange(a as int, b as int);
    if !range_starts_with(v, a, b, "//") {
        assert(!starts(t, "//"@)) by {
            if starts(t, "//"@) {
                assert(t.take("//"@.len() as int) =~= v@.subrange(a as int, a + "//"@.len()));
            }
        }
        return None;
    }
    let two = "//".unicode_len();
    assert(t.take(two as int) =~= v@.subrange(a as int, a + two));
    let c = skip_lead(v, a + two, b);
    let ghost u = v@.subrange(c as int, b as int);
    assert(t.skip(two as int) =~= v@.subrange(a + two, b as int));
    assert(trim_start(t.skip(two as int)) =~= u);
    let marker = "{{Wikipedia:USync";
    let ml = marker.unicode_len();
    if !range_starts_with(v, c, b, marker) {
        assert(!starts(u, marker@)) by {
            if starts(u, marker@) {
                assert(u.take(ml as int) =~= v@.subrange(c as int, c + ml));
            }
        }
        return None;
    }
    assert(u.take(ml as int) =~= v@.subrange(c as int, c + ml));
    let d = c + ml;
    let ghost w = v@.subrange(d as int, b as int);
    assert(u.skip(ml as int) =~= w);
    let cl = "}}".unicode_len();
    if !range_ends_with(v, d, b, "}}") {
        assert(!ends(w, "}}"@)) by {
            if ends(w, "}}"@) {
                assert(w.skip(w.len() - cl) =~= v@.subrange(b - cl, b as int));
            }
        }
        return None;
    }
    assert(w.skip(w.len() - cl) =~= v@.subrange(b - cl, b as int));
    assert(w.take(w.len() - cl) =~= v@.subrange(d as int, b - cl));
    let (lo, hi) = trim_range(v, d, b - cl);
    Some((lo, hi))
}

/// The ranges that the fragments of `lo..hi` give to `repo`, `ref` and `path`.
fn read_fields(v: &Vec<char>, lo: usize, hi: usize) -> (r: (
    Option<(usize, usize)>,
    Option<(usize, usize)>,
    Option<(usize, usize)>,
))
    requires
        lo <= hi <= v.len(),
    ensures
        range_ok(v@, r.0),
        range_ok(v@, r.1),
        range_ok(v@, r.2),
        range_of(v@, r.0) == lookup_field(split(v@.subrange(lo as int, hi as int), '|'), "repo"@),
        range_of(v@, r.1) == lookup_field(split(v@.subrange(lo as int, hi as int), '|'), "ref"@),
        range_of(v@, r.2) == lookup_field(split(v@.subrange(lo as int, hi as int), '|'), "path"@),
{
    let mut repo: Option<(usize, usize)> = None;
    let mut ref_: Option<(usize, usize)> = None;
    let mut path: Option<(usize, usize)> = None;
    let mut start: usize = lo;
    let mut j: usize = lo;
    let ghost mut done: Seq<Seq<char>> = Seq::empty();
    assert(v@.subrange(lo as int, lo as int) =~= Seq::<char>::empty());
    while j < hi
        invariant
            lo <= start <= j <= hi <= v.len(),
            split(v@.subrange(lo as int, j as int), '|') == done.push(
                v@.subrange(start as int, j as int),
            ),
            range_ok(v@, repo),
            range_ok(v@, ref_),
            range_ok(v@, path),
            range_of(v@, repo) == lookup_field(done, "repo"@),
            range_of(v@, ref_) == lookup_field(done, "ref"@),
            range_of(v@, path) == lookup_field(done, "path"@),
        decreases hi - j,
    {
        let ghost prev = v@.subrange(lo as int, j as int);
        assert(v@.subrange(lo as int, j + 1).drop_last() =~= prev);
        if v[j] == '|' {
            repo = fold_field(v, start, j, "repo", repo);
            ref_ = fold_field(v, start, j, "ref", ref_);
            path = fold_field(v, start, j, "path", path);
            proof {
                let old_done = done;
                done = done.push(v@.subrange(start as int, j as int));
                assert(done.drop_last() =~= old_done);
                assert(v@.subrange(j + 1, j + 1) =~= Seq::<char>::empty());
            }
            start = j + 1;
        } else {
            assert(v@.subrange(start as int, j + 1) =~= v@.subrange(start as int, j as int).push(
                v@[j as int],
            ));
            assert(done.push(v@.subrange(start as int, j as int)).update(
                done.len() as int,
                v@.subrange(start as int, j + 1),
            ) =~= done.push(v@.subrange(start as int, j + 1)));
        }
        j = j + 1;
    }
    repo = fold_field(v, start, hi, "repo", repo);
    ref_ = fold_field(v, start, hi, "ref", ref_);
    path = fold_field(v, start, hi, "path", path);
    proof {
        let all = done.push(v@.subrange(start as int, hi as int));
        assert(all.drop_last() =~= done);
    }
    (repo, ref_, path)
}

/// Decodes the declaration on the first line of `s`. Where a key is set
/// twice, the last fragment wins; fragments with other keys are ignored.
pub fn parse_js_header(s: &str) -> (r: Option<Header>)
    ensures
        match r {
            Some(h) => decode(s@) == Some(h@),
            None => decode(s@) is None,
        },
{
    if s.unicode_len() == 0 {
        return None;
    }
    let v = line_from(s, 0);
    assert(s@.skip(0) =~= s@);
    let (lo, hi) = match declaration_range(&v) {
        Some(r) => r,
        None => {
            return None;
        },
    };
    let (repo, ref_, path) = read_fields(&v, lo, hi);
    match (repo, ref_, path) {
        (Some((a1, b1)), Some((a2, b2)), Some((a3, b3))) => {
            assert(v@.subrange(a1 as int, b1 as int) =~= s@.subrange(a1 as int, b1 as int));
            assert(v@.subrange(a2 as int, b2 as int) =~= s@.subrange(a2 as int, b2 as int));
            assert(v@.subrange(a3 as int, b3 as int) =~= s@.subrange(a3 as int, b3 as int));
            Some(
                Header {
                    repo: String::from_str(s.substring_char(a1, b1)),
                    ref_: String::from_str(s.substring_char(a2, b2)),
                    path: String::from_str(s.substring_char(a3, b3)),
                },
            )
        },
        _ => None,
    }
}

/// Author and committer name of each commit, in order.
pub open spec fn commit_names(cs: Seq<GitHubCommit>) -> Seq<Seq<char>>
    decreases cs.len(),
{
    if cs.len() == 0 {
        Seq::empty()
    } else {
        commit_names(cs.drop_last()).push(cs.last().author.name@).push(cs.last().committer.name@)
    }
}

/// The elements of `s` without repeats, each where it first appears.
pub open spec fn distinct(s: Seq<Seq<char>>) -> Seq<Seq<char>>
    decreases s.len(),
{
    if s.len() == 0 {
        Seq::empty()
    } else {
        let d = distinct(s.drop_last());
        if d.contains(s.last()) {
            d
        } else {
            d.push(s.last())
        }
    }
}

/// The edit summary for the commits of `p`.
pub open spec fn edit_summary(p: GitHubPush) -> Seq<char> {
    let commits = if p.commits@.len() == 1 {
        p.commits@[0].message@
    } else {
        decimal(p.commits@.len()) + " commits"@
    };
    authors_text(distinct(commit_names(p.commits@))) + ": "@ + commits + " ("@ + p.compare@ + ")"@
}

/// Adds `name` to `names` unless it is there already.
fn add_name(names: &mut Vec<String>, name: &String)
    ensures
        strs(final(names)@) == if strs(old(names)@).contains(name@) {
            strs(old(names)@)
        } else {
            strs(old(names)@).push(name@)
        },
{
    let mut j: usize = 0;
    while j < names.len()
        invariant
            j <= names.len(),
            forall|k: int| 0 <= k < j ==> names@[k]@ != name@,
        decreases names.len() - j,
    {
        if names[j] == *name {
            assert(strs(names@)[j as int] == name@);
            return;
        }
        j = j + 1;
    }
    assert(!strs(names@).contains(name@));
    names.push(name.clone());
    assert(strs(final(names)@) =~= strs(old(names)@).push(name@));
}

/// Collapses a push into what its edit summary is made of.
pub fn parse_webhook(p: GitHubPush) -> (r: Push)
    ensures
        r.url@ == p.compare@,
        strs(r.authors@) == distinct(commit_names(p.commits@)),
        p.commits@.len() == 1 ==> r.commits == Commits::Single(p.commits@[0].message),
        p.commits@.len() != 1 ==> r.commits == Commits::Multiple(p.commits@.len() as usize),
        p.commits@.len() > 0 ==> r.authors@.len() > 0,
        summary_text(r) == edit_summary(p),
{
    let commits = if p.commits.len() == 1 {
        Commits::Single(p.commits[0].message.clone())
    } else {
        Commits::Multiple(p.commits.len())
    };
    let mut names: Vec<String> = Vec::new();
    let mut i: usize = 0;
    assert(strs(names@) =~= Seq::<Seq<char>>::empty());
    while i < p.commits.len()
        invariant
            i <= p.commits.len(),
            strs(names@) == distinct(commit_names(p.commits@.take(i as int))),
        decreases p.commits.len() - i,
    {
        let ghost cs = p.commits@.take(i + 1);
        assert(cs.drop_last() =~= p.commits@.take(i as int));
        let ghost ns = commit_names(cs);
        let ghost prev = commit_names(p.commits@.take(i as int));
        let ghost a = p.commits@[i as int].author.name@;
        assert(ns == prev.push(a).push(p.commits@[i as int].committer.name@));
        assert(prev.push(a).push(p.commits@[i as int].committer.name@).drop_last() =~= prev.push(
            a,
        ));
        assert(prev.push(a).drop_last() =~= prev);
        add_name(&mut names, &p.commits[i].author.name);
        assert(strs(names@) == distinct(prev.push(a)));
        add_name(&mut names, &p.commits[i].committer.name);
        assert(strs(names@) == distinct(ns));
        i = i + 1;
    }
    assert(p.commits@.take(p.commits@.len() as int) =~= p.commits@);
    proof {
        let ns = commit_names(p.commits@);
        if p.commits@.len() > 0 {
            assert(ns.len() > 0);
            assert(distinct(ns).len() > 0);
        }
    }
    Push { commits, authors: names, url: p.compare }
}

/// Whether `c` added or modified the file at `path`.
pub open spec fn touches(c: GitHubCommit, path: Seq<char>) -> bool {
    strs(c.added@).contains(path) || strs(c.modified@).contains(path)
}

/// The commits of `cs` that touch `path`, in order.
pub open spec fn touching(cs: Seq<GitHubCommit>, path: Seq<char>) -> Seq<GitHubCommit>
    decreases cs.len(),
{
    if cs.len() == 0 {
        Seq::empty()
    } else if touches(cs.last(), path) {
        touching(cs.drop_last(), path).push(cs.last())
    } else {
        touching(cs.drop_last(), path)
    }
}

fn contains_str(v: &Vec<String>, s: &String) -> (r: bool)
    ensures
        r == strs(v@).contains(s@),
{
    let mut j: usize = 0;
    while j < v.len()
        invariant
            j <= v.len(),
            forall|k: int| 0 <= k < j ==> v@[k]@ != s@,
        decreases v.len() - j,
    {
        if v[j] == *s {
            assert(strs(v@)[j as int] == s@);
            return true;
        }
        j = j + 1;
    }
    false
}

/// Keeps the commits that touch `path`.
pub fn retain_touching(commits: Vec<GitHubCommit>, path: &String) -> (r: Vec<GitHubCommit>)
    ensures
        r@ == touching(commits@, path@),
{
    let ghost orig = commits@;
    let total = commits.len();
    let mut rest = commits;
    let mut kept: Vec<GitHubCommit> = Vec::new();
    let mut i: usize = 0;
    while rest.len() > 0
        invariant
            i <= orig.len(),
            orig.len() == total,
            rest@ == orig.skip(i as int),
            kept@ == touching(orig.take(i as int), path@),
        decreases rest.len(),
    {
        let c = rest.remove(0);
        assert(orig.take(i + 1).drop_last() =~= orig.take(i as int));
        assert(c == orig[i as int]);
        if contains_str(&c.added, path) || contains_str(&c.modified, path) {
            kept.push(c);
        }
        assert(rest@ =~= orig.skip(i + 1));
        i = i + 1;
    }
    assert(orig.take(i as int) =~= orig);
    kept
}

/// The content address of `path` that the repository address `repo` gives,
/// where `repo` is on github.com.
pub open spec fn api_url(repo: Seq<char>, path: Seq<char>) -> Option<Seq<char>> {
    if starts(repo, "https://github.com/"@) {
        let r = repo.skip("https://github.com/"@.len() as int);
        let r2 = if ends(r, "/"@) {
            r.drop_last()
        } else {
            r
        };
        Some("https://api.github.com/repos/"@ + r2 + "/contents/"@ + path)
    } else {
        None
    }
}

/// Builds the content address of `path` in the repository at `repo`.
pub fn content_url(repo: &String, path: &String) -> (r: Option<String>)
    ensures
        match r {
            Some(u) => api_url(repo@, path@) == Some(u@),
            None => api_url(repo@, path@) is None,
        },
{
    let v = chars_of(repo.as_str());
    let n = v.len();
    assert(v@.subrange(0, n as int) =~= repo@);
    let host = "https://github.com/";
    if !range_starts_with(&v, 0, n, host) {
        return None;
    }
    let hl = host.unicode_len();
    assert(repo@.take(hl as int) =~= v@.subrange(0, hl as int));
    let ghost r = repo@.skip(hl as int);
    assert(r =~= v@.subrange(hl as int, n as int));
    let mut end = n;
    if range_ends_with(&v, hl, n, "/") {
        proof {
            reveal_strlit("/");
        }
        end = n - 1;
        assert(r.skip(r.len() - 1) =~= v@.subrange(end as int, n as int));
        assert(ends(r, "/"@));
        assert(r.drop_last() =~= v@.subrange(hl as int, end as int));
    } else {
        assert(!ends(r, "/"@)) by {
            if ends(r, "/"@) {
                assert(r.skip(r.len() - "/"@.len()) =~= v@.subrange(n - "/"@.len(), n as int));
            }
        }
    }
    let mut out = String::new();
    out.append("https://api.github.com/repos/");
    out.append(repo.as_str().substring_char(hl, end));
    out.append("/contents/");
    out.append(path.as_str());
    let ghost r2 = if ends(r, "/"@) {
        r.drop_last()
    } else {
        r
    };
    assert(r2 =~= repo@.subrange(hl as int, end as int));
    assert(out@ =~= "https://api.github.com/repos/"@ + r2 + "/contents/"@ + path@);
    Some(out)
}

/// What the checks on the wiki side settle: the page's header, the push
/// with only the commits that touch the declared file, and the address to
/// fetch the file from.
pub struct Plan {
    pub header: Header,
    pub push: GitHubPush,
    pub file_url: String,
}

/// The checks made once the page's current text `wiki` is known. `None`
/// where the page declares no header, where its header names another
/// repository or ref than the push, where no commit of the push touches
/// the declared file, or where the repository's address does not give the
/// same content address as its template.
pub fn plan_update(push: GitHubPush, wiki: &str) -> (r: Option<Plan>)
    ensures
        match decode(wiki@) {
            None => r is None,
            Some(h) => {
                let kept = touching(push.commits@, h.2);
                if h.1 != push.ref_@ || h.0 != push.repository.html_url@ || kept.len() == 0 {
                    r is None
                } else {
                    match api_url(h.0, h.2) {
                        None => r is None,
                        Some(u) => if u != replace(
                            push.repository.contents_url@,
                            "{+path}"@,
                            h.2,
                        ) {
                            r is None
                        } else {
                            r matches Some(plan) && plan.header@ == h && plan.file_url@ == u
                                && plan.push.commits@ == kept && plan.push.compare
                                == push.compare && plan.push.ref_ == push.ref_
                                && plan.push.repository == push.repository && plan.push.retry
                                == push.retry
                        },
                    }
                }
            },
        },
{
    let header = match parse_js_header(wiki) {
        Some(h) => h,
        None => {
            return None;
        },
    };
    if push.ref_ != header.ref_ || push.repository.html_url != header.repo {
        return None;
    }
    let GitHubPush { compare, commits, ref_, repository, retry } = push;
    let kept = retain_touching(commits, &header.path);
    if kept.len() == 0 {
        return None;
    }
    let file_url = match content_url(&header.repo, &header.path) {
        Some(u) => u,
        None => {
            return None;
        },
    };
    proof {
        reveal_strlit("{+path}");
    }
    let file_url2 = replace_str(repository.contents_url.as_str(), "{+path}", header.path.as_str());
    if file_url != file_url2 {
        return None;
    }
    Some(
        Plan {
            header,
            push: GitHubPush { compare, commits: kept, ref_, repository, retry },
            file_url,
        },
    )
}

/// The check made once the file's text `fetched` is known: `Some` with the
/// edit summary exactly where the text differs from the page's and declares
/// the same header.
pub fn decide_edit(plan: Plan, wiki: &str, fetched: &str) -> (r: Option<String>)
    requires
        plan.push.commits@.len() > 0,
    ensures
        r is Some <==> (fetched@ != wiki@ && decode(fetched@) == Some(plan.header@)),
        r matches Some(s) ==> s@ == edit_summary(plan.push),
{
    if same_text(fetched, wiki) {
        return None;
    }
    match parse_js_header(fetched) {
        Some(h) => {
            if h != plan.header {
                return None;
            }
        },
        None => {
            return None;
        },
    }
    let push = parse_webhook(plan.push);
    Some(push.into_edit_summary())
}

} // verus!
