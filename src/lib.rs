//! Keeps wiki pages in sync with files of a source repository: decoding of
//! the declaration headers, the routing table, the dispatch of push events and
//! the checks made before a page is edited.

pub mod text;
pub mod push;
pub mod updater;
pub mod parser;
pub mod dispatch;
pub mod wp;
pub mod sorter;
