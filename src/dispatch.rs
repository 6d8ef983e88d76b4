//! What becomes of a push event once the routing table has been consulted.
use vstd::prelude::*;
use crate::parser::{RoutingTable, SyncSource};
use crate::push::{GitHubPush, strs};

verus! {

/// The kind of step that the dispatcher takes for an event.
#[derive(Clone, Copy, Debug, PartialEq, Eq, Structural)]
pub enum Step {
    /// Reconcile each page that declares the event's source.
    Reconcile,
    /// Ask for a refresh and put the event back on the queue, marked.
    Requeue,
    /// Ask for a refresh and give the event up.
    Drop,
}

/// A step together with what it carries.
pub enum Dispatch {
    Reconcile(GitHubPush, Vec<String>),
    Requeue(GitHubPush),
    Drop,
}

impl Dispatch {
    pub open spec fn step(&self) -> Step {
        match self {
            Dispatch::Reconcile(..) => Step::Reconcile,
            Dispatch::Requeue(..) => Step::Requeue,
            Dispatch::Drop => Step::Drop,
        }
    }
}

/// The source that an event is routed by.
pub open spec fn event_source(p: GitHubPush) -> (Seq<char>, Seq<char>) {
    (p.repository.html_url@, p.ref_@)
}

/// The step for an event whose source is `k` and whose mark is `retry`.
pub open spec fn next_step(t: RoutingTable, k: (Seq<char>, Seq<char>), retry: bool) -> Step {
    if t.titles_for(k).len() > 0 {
        Step::Reconcile
    } else if !retry {
        Step::Requeue
    } else {
        Step::Drop
    }
}

/// Routes one event: on a hit it goes to each declaring page; on a miss an
/// unmarked event comes back marked, and a marked one is given up.
pub fn dispatch(table: &RoutingTable, push: GitHubPush) -> (r: Dispatch)
    requires
        table.wf(),
    ensures
        r.step() == next_step(*table, event_source(push), push.retry),
        r matches Dispatch::Reconcile(p, ts) ==> p == push && strs(ts@) == table.titles_for(
            event_source(push),
        ),
        r matches Dispatch::Requeue(p) ==> p.retry && p.compare == push.compare && p.commits
            == push.commits && p.ref_ == push.ref_ && p.repository == push.repository,
{
    let src = SyncSource {
        repo: push.repository.html_url.clone(),
        ref_: push.ref_.clone(),
    };
    let titles = table.lookup(&src);
    if titles.len() > 0 {
        Dispatch::Reconcile(push, titles)
    } else if !push.retry {
        let GitHubPush { compare, commits, ref_, repository, retry: _ } = push;
        Dispatch::Requeue(GitHubPush { compare, commits, ref_, repository, retry: true })
    } else {
        Dispatch::Drop
    }
}

/// An event is put back on the queue at most once: once requeued it is
/// marked, and whatever the table holds when it comes round again, it is
/// not requeued a second time.
pub proof fn lemma_requeued_at_most_once(
    t1: RoutingTable,
    t2: RoutingTable,
    k: (Seq<char>, Seq<char>),
    retry: bool,
)
    ensures
        next_step(t1, k, retry) == Step::Requeue ==> !retry && next_step(t2, k, true)
            != Step::Requeue,
{
}

} // verus!
