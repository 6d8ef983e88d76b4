//! The routing table from a repository and ref to the titles of the pages
//! that declare them, and how a discovery pass fills it.
use vstd::prelude::*;
use crate::push::strs;
use crate::text::{chars_of, range_eq};
use crate::updater::{decode, parse_js_header};

verus! {

/// A repository and ref, compared as exact strings.
#[derive(Clone, Debug, Eq, Hash)]
pub struct SyncSource {
    pub repo: String,
    pub ref_: String,
}

impl View for SyncSource {
    type V = (Seq<char>, Seq<char>);

    open spec fn view(&self) -> (Seq<char>, Seq<char>) {
        (self.repo@, self.ref_@)
    }
}

impl PartialEq for SyncSource {
    fn eq(&self, o: &SyncSource) -> (r: bool) {
        self.repo == o.repo && self.ref_ == o.ref_
    }
}

impl vstd::std_specs::cmp::PartialEqSpecImpl for SyncSource {
    open spec fn obeys_eq_spec() -> bool {
        true
    }

    open spec fn eq_spec(&self, o: &SyncSource) -> bool {
        self@ == o@
    }
}

/// A page found by a discovery pass.
#[derive(Clone, Debug)]
pub struct PageInfo {
    pub title: String,
    pub contentmodel: String,
    pub content: String,
}

/// The source that page `p` declares, where it is a script page whose
/// content decodes.
pub open spec fn page_source(p: PageInfo) -> Option<(Seq<char>, Seq<char>)> {
    if p.contentmodel@ == "javascript"@ {
        match decode(p.content@) {
            Some(h) => Some((h.0, h.1)),
            None => None,
        }
    } else {
        None
    }
}

/// Titles of the pages of `ps` that declare `k`, in order.
pub open spec fn routed_titles(ps: Seq<PageInfo>, k: (Seq<char>, Seq<char>)) -> Seq<Seq<char>>
    decreases ps.len(),
{
    if ps.len() == 0 {
        Seq::empty()
    } else if page_source(ps.last()) == Some(k) {
        routed_titles(ps.drop_last(), k).push(ps.last().title@)
    } else {
        routed_titles(ps.drop_last(), k)
    }
}

pub struct Route {
    pub source: SyncSource,
    pub titles: Vec<String>,
}

/// Map from a source to the titles that declare it. A source with no title
/// is absent.
pub struct RoutingTable {
    routes: Vec<Route>,
}

impl RoutingTable {
    /// Sources are unique and each has at least one title.
    pub closed spec fn wf(&self) -> bool {
        &&& forall|i: int, j: int|
            #![trigger self.routes@[i], self.routes@[j]]
            0 <= i < self.routes@.len() && 0 <= j < self.routes@.len() && self.routes@[i].source@
                == self.routes@[j].source@ ==> i == j
        &&& forall|i: int| 0 <= i < self.routes@.len() ==> #[trigger] self.routes@[i].titles@.len() > 0
    }

    pub closed spec fn index_of(&self, k: (Seq<char>, Seq<char>)) -> int {
        choose|i: int| 0 <= i < self.routes@.len() && self.routes@[i].source@ == k
    }

    pub closed spec fn has(&self, k: (Seq<char>, Seq<char>)) -> bool {
        exists|i: int| 0 <= i < self.routes@.len() && self.routes@[i].source@ == k
    }

    /// The titles stored for `k`, empty where `k` is absent.
    pub closed spec fn titles_for(&self, k: (Seq<char>, Seq<char>)) -> Seq<Seq<char>> {
        if self.has(k) {
            strs(self.routes@[self.index_of(k)].titles@)
        } else {
            Seq::empty()
        }
    }

    pub fn new() -> (r: RoutingTable)
        ensures
            r.wf(),
            forall|k| #[trigger] r.titles_for(k) == Seq::<Seq<char>>::empty(),
    {
        RoutingTable { routes: Vec::new() }
    }

    /// The stored routes never hold an empty title list.
    pub proof fn lemma_no_empty_entry(&self, k: (Seq<char>, Seq<char>))
        requires
            self.wf(),
        ensures
            self.has(k) <==> self.titles_for(k).len() > 0,
    {
        if self.has(k) {
            let i = self.index_of(k);
            assert(self.routes@[i].titles@.len() > 0);
        }
    }

    /// The titles stored for `src`, empty where it is absent.
    pub fn lookup(&self, src: &SyncSource) -> (r: Vec<String>)
        requires
            self.wf(),
        ensures
            strs(r@) == self.titles_for(src@),
    {
        let mut i: usize = 0;
        while i < self.routes.len()
            invariant
                self.wf(),
                i <= self.routes.len(),
                forall|j: int| 0 <= j < i ==> self.routes@[j].source@ != src@,
            decreases self.routes.len() - i,
        {
            if self.routes[i].source == *src {
                let ghost c = self.index_of(src@);
                assert(self.has(src@));
                assert(self.routes@[c].source@ == src@);
                assert(c == i);
                return self.routes[i].titles.clone();
            }
            i = i + 1;
        }
        assert(!self.has(src@));
        Vec::new()
    }

    /// Adds `title` to those of `src`.
    pub fn insert_title(&mut self, src: SyncSource, title: String)
        requires
            old(self).wf(),
        ensures
            final(self).wf(),
            forall|k| #[trigger]
                final(self).titles_for(k) == if k == src@ {
                    old(self).titles_for(k).push(title@)
                } else {
                    old(self).titles_for(k)
                },
    {
        let mut i: usize = 0;
        while i < self.routes.len()
            invariant
                *self == *old(self),
                self.wf(),
                i <= self.routes.len(),
                forall|j: int| 0 <= j < i ==> self.routes@[j].source@ != src@,
            decreases self.routes.len() - i,
        {
            if self.routes[i].source == src {
                let ghost before = *self;
                assert(before.has(src@));
                assert(before.index_of(src@) == i);
                let mut r = Route {
                    source: SyncSource { repo: String::new(), ref_: String::new() },
                    titles: Vec::new(),
                };
                self.routes.set_and_swap(i, &mut r);
                r.titles.push(title);
                self.routes.set(i, r);
                assert(self.routes@ == before.routes@.update(i as int, self.routes@[i as int]));
                assert(strs(self.routes@[i as int].titles@) =~= strs(
                    before.routes@[i as int].titles@,
                ).push(title@));
                assert forall|k| #[trigger]
                    self.titles_for(k) == if k == src@ {
                        before.titles_for(k).push(title@)
                    } else {
                        before.titles_for(k)
                    } by {
                    if before.has(k) {
                        let c = before.index_of(k);
                        assert(self.routes@[c].source@ == k);
                        assert(self.has(k));
                        assert(self.index_of(k) == c);
                    } else {
                        assert(!self.has(k)) by {
                            if self.has(k) {
                                let c = self.index_of(k);
                                assert(before.routes@[c].source@ == k);
                            }
                        }
                    }
                }
                return;
            }
            i = i + 1;
        }
        let ghost before = *self;
        assert(!before.has(src@));
        let mut titles: Vec<String> = Vec::new();
        titles.push(title);
        self.routes.push(Route { source: src, titles });
        let ghost n = before.routes@.len() as int;
        assert(self.routes@[n].source@ == src@);
        assert(strs(self.routes@[n].titles@) =~= seq![title@]);
        assert forall|k| #[trigger]
            self.titles_for(k) == if k == src@ {
                before.titles_for(k).push(title@)
            } else {
                before.titles_for(k)
            } by {
            if k == src@ {
                assert(self.has(k));
                assert(self.index_of(k) == n);
                assert(Seq::<Seq<char>>::empty().push(title@) =~= seq![title@]);
            } else if before.has(k) {
                let c = before.index_of(k);
                assert(self.routes@[c].source@ == k);
                assert(self.has(k));
                assert(self.index_of(k) == c);
            } else {
                assert(!self.has(k)) by {
                    if self.has(k) {
                        let c = self.index_of(k);
                        assert(before.routes@[c].source@ == k);
                    }
                }
            }
        }
    }

    /// Whether the two tables give the same titles for every source.
    pub open spec fn same_contents(&self, o: &RoutingTable) -> bool {
        forall|k| #[trigger] self.titles_for(k) == o.titles_for(k)
    }

    /// Takes the whole contents of `new` in one step.
    pub fn replace(&mut self, new: RoutingTable)
        requires
            new.wf(),
        ensures
            final(self).wf(),
            final(self).same_contents(&new),
    {
        *self = new;
    }

    /// Keeps the table where the discovery pass failed; otherwise takes the
    /// table that its pages give.
    pub fn refresh(&mut self, found: Option<Vec<PageInfo>>)
        requires
            old(self).wf(),
        ensures
            final(self).wf(),
            found is None ==> final(self).same_contents(old(self)),
            found matches Some(ps) ==> forall|k| #[trigger]
                final(self).titles_for(k) == routed_titles(ps@, k),
    {
        match found {
            Some(ps) => {
                let t = build_routes(ps);
                self.replace(t);
            },
            None => {},
        }
    }
}

/// Once a table has taken the contents of `m`, a lookup of any source
/// gives exactly the titles that `m` holds for it, and an empty list exactly
/// where `m` has no entry for it.
pub proof fn lemma_lookup_after_replace(
    m: RoutingTable,
    after: RoutingTable,
    k: (Seq<char>, Seq<char>),
)
    requires
        m.wf(),
        after.same_contents(&m),
    ensures
        after.titles_for(k) == m.titles_for(k),
        m.has(k) <==> after.titles_for(k).len() > 0,
{
    m.lemma_no_empty_entry(k);
}

/// The source that page `p` declares, where it is a script page whose
/// content decodes.
pub fn source_of_page(p: &PageInfo) -> (r: Option<SyncSource>)
    ensures
        match r {
            Some(s) => page_source(*p) == Some(s@),
            None => page_source(*p) is None,
        },
{
    let m = chars_of(p.contentmodel.as_str());
    let n = m.len();
    assert(m@.subrange(0, n as int) =~= p.contentmodel@);
    if !range_eq(&m, 0, n, "javascript") {
        return None;
    }
    match parse_js_header(p.content.as_str()) {
        Some(h) => Some(SyncSource { repo: h.repo, ref_: h.ref_ }),
        None => None,
    }
}

/// The table that the pages found by a discovery pass give: each script
/// page whose header decodes is listed under its repository and ref.
pub fn build_routes(pages: Vec<PageInfo>) -> (t: RoutingTable)
    ensures
        t.wf(),
        forall|k| #[trigger] t.titles_for(k) == routed_titles(pages@, k),
{
    let mut t = RoutingTable::new();
    let mut i: usize = 0;
    while i < pages.len()
        invariant
            i <= pages.len(),
            t.wf(),
            forall|k| #[trigger] t.titles_for(k) == routed_titles(pages@.take(i as int), k),
        decreases pages.len() - i,
    {
        let ghost prev = t;
        assert(pages@.take(i + 1).drop_last() =~= pages@.take(i as int));
        match source_of_page(&pages[i]) {
            Some(src) => {
                t.insert_title(src, pages[i].title.clone());
            },
            None => {},
        }
        assert forall|k| #[trigger]
            t.titles_for(k) == routed_titles(pages@.take(i + 1), k) by {
            assert(prev.titles_for(k) == routed_titles(pages@.take(i as int), k));
        }
        i = i + 1;
    }
    assert(pages@.take(pages.len() as int) =~= pages@);
    t
}

} // verus!
