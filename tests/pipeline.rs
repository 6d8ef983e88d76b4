use usync::dispatch::{dispatch, Dispatch};
use usync::parser::{build_routes, PageInfo, RoutingTable, SyncSource};
use usync::push::{push_decimal, Commits, GitHubAuthor, GitHubCommit, GitHubPush, Push, Repository};
use usync::text::replace_str;
use usync::updater::{content_url, decide_edit, parse_webhook, plan_update};

const REPO: &str = "https://github.com/fee1-dead/usync";
const REF: &str = "refs/heads/main";
const CONTENTS: &str = "https://api.github.com/repos/fee1-dead/usync/contents/{+path}";

fn commit(author: &str, committer: &str, message: &str, added: &[&str], modified: &[&str]) -> GitHubCommit {
    GitHubCommit {
        author: GitHubAuthor { name: author.to_string() },
        committer: GitHubAuthor { name: committer.to_string() },
        message: message.to_string(),
        added: added.iter().map(|s| s.to_string()).collect(),
        modified: modified.iter().map(|s| s.to_string()).collect(),
    }
}

fn push_event(commits: Vec<GitHubCommit>, retry: bool) -> GitHubPush {
    GitHubPush {
        compare: "https://github.com/fee1-dead/usync/compare/a...b".to_string(),
        commits,
        ref_: REF.to_string(),
        repository: Repository { html_url: REPO.to_string(), contents_url: CONTENTS.to_string() },
        retry,
    }
}

fn header_line(path: &str) -> String {
    format!("// {{{{Wikipedia:USync|repo={REPO}|ref={REF}|path={path}}}}}")
}

fn page(title: &str, model: &str, content: &str) -> PageInfo {
    PageInfo { title: title.to_string(), contentmodel: model.to_string(), content: content.to_string() }
}

#[test]
fn summary_one_author_one_commit() {
    let p = Push {
        commits: Commits::Single("fix typo".to_string()),
        authors: vec!["Alice".to_string()],
        url: "U".to_string(),
    };
    assert_eq!(p.into_edit_summary(), "Alice: fix typo (U)");
}

#[test]
fn summary_four_authors_five_commits() {
    let cs = vec![
        commit("A", "A", "1", &["x"], &[]),
        commit("B", "B", "2", &["x"], &[]),
        commit("C", "A", "3", &["x"], &[]),
        commit("D", "B", "4", &["x"], &[]),
        commit("A", "D", "5", &["x"], &[]),
    ];
    let mut e = push_event(cs, false);
    e.compare = "U".to_string();
    let p = parse_webhook(e);
    assert_eq!(p.authors, vec!["A", "B", "C", "D"]);
    assert_eq!(p.into_edit_summary(), "A and 3 others: 5 commits (U)");
}

#[test]
fn summary_three_authors_are_listed() {
    let cs = vec![commit("A", "B", "1", &[], &[]), commit("C", "A", "2", &[], &[])];
    let mut e = push_event(cs, false);
    e.compare = "U".to_string();
    assert_eq!(parse_webhook(e).into_edit_summary(), "A, B, C: 2 commits (U)");
}

#[test]
fn parse_webhook_single_commit_keeps_message() {
    let e = push_event(vec![commit("A", "A", "only one", &[], &[])], false);
    let p = parse_webhook(e);
    assert!(matches!(p.commits, Commits::Single(ref m) if m == "only one"));
    assert_eq!(p.authors, vec!["A"]);
    assert_eq!(p.url, "https://github.com/fee1-dead/usync/compare/a...b");
}

#[test]
fn decimal_digits() {
    let mut s = String::from("n=");
    push_decimal(&mut s, 0);
    assert_eq!(s, "n=0");
    let mut s = String::new();
    push_decimal(&mut s, 10);
    assert_eq!(s, "10");
    let mut s = String::new();
    push_decimal(&mut s, 40213);
    assert_eq!(s, "40213");
}

#[test]
fn replace_every_placeholder() {
    assert_eq!(replace_str("a{+path}b{+path}", "{+path}", "x.js"), "ax.jsbx.js");
    assert_eq!(replace_str("none", "{+path}", "x"), "none");
    assert_eq!(replace_str("aaa", "aa", "b"), "ba");
}

#[test]
fn content_url_from_repository_address() {
    assert_eq!(
        content_url(&REPO.to_string(), &"p.js".to_string()).unwrap(),
        "https://api.github.com/repos/fee1-dead/usync/contents/p.js"
    );
    assert_eq!(
        content_url(&"https://github.com/o/r/".to_string(), &"a/b.js".to_string()).unwrap(),
        "https://api.github.com/repos/o/r/contents/a/b.js"
    );
    assert!(content_url(&"https://gitlab.com/o/r".to_string(), &"p.js".to_string()).is_none());
}

#[test]
fn routing_lookup_after_replace() {
    let pages = vec![
        page("User:Foo/p.js", "javascript", &header_line("p.js")),
        page("User:Bar/q.js", "javascript", &header_line("q.js")),
        page("User:Baz/p.css", "css", &header_line("p.css")),
        page("User:Qux/none.js", "javascript", "// nothing here"),
    ];
    let mut t = RoutingTable::new();
    let src = SyncSource { repo: REPO.to_string(), ref_: REF.to_string() };
    assert!(t.lookup(&src).is_empty());
    t.replace(build_routes(pages));
    assert_eq!(t.lookup(&src), vec!["User:Foo/p.js", "User:Bar/q.js"]);
    let other = SyncSource { repo: REPO.to_string(), ref_: "refs/heads/dev".to_string() };
    assert!(t.lookup(&other).is_empty());
}

#[test]
fn failed_refresh_keeps_table() {
    let mut t = RoutingTable::new();
    t.refresh(Some(vec![page("User:Foo/p.js", "javascript", &header_line("p.js"))]));
    t.refresh(None);
    let src = SyncSource { repo: REPO.to_string(), ref_: REF.to_string() };
    assert_eq!(t.lookup(&src), vec!["User:Foo/p.js"]);
    t.refresh(Some(vec![]));
    assert!(t.lookup(&src).is_empty());
}

#[test]
fn dispatch_miss_requeues_once_then_drops() {
    let t = RoutingTable::new();
    let e = push_event(vec![commit("A", "A", "m", &["p.js"], &[])], false);
    let again = match dispatch(&t, e) {
        Dispatch::Requeue(p) => p,
        _ => panic!("expected a requeue"),
    };
    assert!(again.retry);
    assert!(matches!(dispatch(&t, again), Dispatch::Drop));
}

#[test]
fn dispatch_hit_goes_to_each_title() {
    let t = build_routes(vec![
        page("User:Foo/p.js", "javascript", &header_line("p.js")),
        page("User:Foo/q.js", "javascript", &header_line("q.js")),
    ]);
    let e = push_event(vec![commit("A", "A", "m", &["p.js"], &[])], true);
    match dispatch(&t, e) {
        Dispatch::Reconcile(p, titles) => {
            assert_eq!(titles, vec!["User:Foo/p.js", "User:Foo/q.js"]);
            assert!(p.retry);
        }
        _ => panic!("expected a hit"),
    }
}

#[test]
fn end_to_end_touched_file_is_edited() {
    let table = build_routes(vec![page("User:Foo/p.js", "javascript", &header_line("p.js"))]);
    let e = push_event(
        vec![commit("Alice", "Bob", "update p", &[], &["p.js"]), commit("Carol", "Carol", "docs", &["README.md"], &[])],
        false,
    );
    let (event, titles) = match dispatch(&table, e) {
        Dispatch::Reconcile(p, t) => (p, t),
        _ => panic!("expected a hit"),
    };
    assert_eq!(titles, vec!["User:Foo/p.js"]);
    let mut edits = Vec::new();
    for title in titles {
        let wiki = format!("{}\nold();", header_line("p.js"));
        let plan = plan_update(event.clone(), &wiki).expect("the checks on the wiki side pass");
        assert_eq!(plan.file_url, "https://api.github.com/repos/fee1-dead/usync/contents/p.js");
        assert_eq!(plan.push.commits.len(), 1);
        let fetched = format!("{}\nnew();", header_line("p.js"));
        if let Some(summary) = decide_edit(plan, &wiki, &fetched) {
            edits.push((title, fetched, summary));
        }
    }
    assert_eq!(edits.len(), 1);
    assert_eq!(edits[0].0, "User:Foo/p.js");
    assert!(edits[0].1.ends_with("new();"));
    assert_eq!(edits[0].2, "Alice, Bob: update p (https://github.com/fee1-dead/usync/compare/a...b)");
}

#[test]
fn end_to_end_untouched_file_is_not_edited() {
    let e = push_event(vec![commit("Alice", "Bob", "update q", &["q.js"], &["r.js"])], false);
    let wiki = format!("{}\nold();", header_line("p.js"));
    assert!(plan_update(e, &wiki).is_none());
}

#[test]
fn no_edit_when_texts_are_identical() {
    let e = push_event(vec![commit("A", "A", "m", &[], &["p.js"])], false);
    let wiki = format!("{}\nsame();", header_line("p.js"));
    let plan = plan_update(e, &wiki).unwrap();
    assert!(decide_edit(plan, &wiki, &wiki.clone()).is_none());
}

#[test]
fn no_edit_when_fetched_header_differs() {
    let e = push_event(vec![commit("A", "A", "m", &[], &["p.js"])], false);
    let wiki = format!("{}\nold();", header_line("p.js"));
    let plan = plan_update(e, &wiki).unwrap();
    let fetched = format!("{}\nnew();", header_line("other.js"));
    assert!(decide_edit(plan, &wiki, &fetched).is_none());
    let e = push_event(vec![commit("A", "A", "m", &[], &["p.js"])], false);
    let plan = plan_update(e, &wiki).unwrap();
    assert!(decide_edit(plan, &wiki, "new(); // no header").is_none());
}

#[test]
fn plan_rejects_other_ref_and_template_mismatch() {
    let e = push_event(vec![commit("A", "A", "m", &[], &["p.js"])], false);
    let wiki = format!("// {{{{Wikipedia:USync|repo={REPO}|ref=refs/heads/dev|path=p.js}}}}");
    assert!(plan_update(e, &wiki).is_none());
    let mut e = push_event(vec![commit("A", "A", "m", &[], &["p.js"])], false);
    e.repository.contents_url = "https://api.github.com/repos/someone/else/contents/{+path}".to_string();
    assert!(plan_update(e, &header_line("p.js")).is_none());
    let e = push_event(vec![commit("A", "A", "m", &[], &["p.js"])], false);
    assert!(plan_update(e, "no header at all").is_none());
}
