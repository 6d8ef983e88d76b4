//! The shapes of the wiki API's query responses, and what is taken from them.
use vstd::prelude::*;
use crate::parser::PageInfo;

verus! {

pub struct MainSlot {
    pub content: String,
    pub contentmodel: String,
}

pub struct Slots {
    pub main: MainSlot,
}

pub struct Revision {
    pub slots: Slots,
}

pub struct Page {
    pub title: String,
    pub revisions: [Revision; 1],
}

pub struct Pages<P> {
    pub pages: P,
}

pub struct Response<P> {
    pub query: Pages<P>,
}

pub type SinglePageResponse = Response<[Page; 1]>;

pub type MultiPageResponse = Response<Vec<Page>>;

/// What a discovery pass needs of one page.
pub open spec fn info_matches(i: PageInfo, p: Page) -> bool {
    &&& i.title == p.title
    &&& i.contentmodel == p.revisions[0].slots.main.contentmodel
    &&& i.content == p.revisions[0].slots.main.content
}

/// The title, content model and content of each page, in order.
pub fn page_infos(r: &MultiPageResponse) -> (v: Vec<PageInfo>)
    ensures
        v@.len() == r.query.pages@.len(),
        forall|i: int| 0 <= i < v@.len() ==> info_matches(#[trigger] v@[i], r.query.pages@[i]),
{
    let pages = &r.query.pages;
    let mut out: Vec<PageInfo> = Vec::new();
    let mut i: usize = 0;
    while i < pages.len()
        invariant
            i <= pages@.len(),
            out@.len() == i,
            forall|j: int| 0 <= j < i ==> info_matches(#[trigger] out@[j], pages@[j]),
        decreases pages.len() - i,
    {
        let page = &pages[i];
        let main = &page.revisions[0].slots.main;
        out.push(
            PageInfo {
                title: page.title.clone(),
                contentmodel: main.contentmodel.clone(),
                content: main.content.clone(),
            },
        );
        i = i + 1;
    }
    out
}

/// The content of the one page that a single-page query returns.
pub fn single_content(r: &SinglePageResponse) -> (s: String)
    ensures
        s == r.query.pages[0].revisions[0].slots.main.content,
{
    r.query.pages[0].revisions[0].slots.main.content.clone()
}

} // verus!
