//! The older declaration form
//! `// [[User:0xDeadbeef/usync]]: <repo> <ref> <file>`, where the three values
//! are the words of the rest of the first line.
use vstd::prelude::*;
use crate::text::{first_line, line_from, str_starts_with, word_ranges, words, ranges_in};
pub use crate::updater::parse_webhook;

verus! {

#[derive(Clone, Debug, Eq)]
pub struct Header {
    pub repo: String,
    pub ref_: String,
    pub file: String,
}

impl View for Header {
    type V = (Seq<char>, Seq<char>, Seq<char>);

    open spec fn view(&self) -> (Seq<char>, Seq<char>, Seq<char>) {
        (self.repo@, self.ref_@, self.file@)
    }
}

impl PartialEq for Header {
    fn eq(&self, o: &Header) -> (r: bool) {
        self.repo == o.repo && self.ref_ == o.ref_ && self.file == o.file
    }
}

impl vstd::std_specs::cmp::PartialEqSpecImpl for Header {
    open spec fn obeys_eq_spec() -> bool {
        true
    }

    open spec fn eq_spec(&self, o: &Header) -> bool {
        self@ == o@
    }
}

/// The header that `s` declares in the older form: the prefix, then on the
/// rest of that line exactly three words.
pub open spec fn decode(s: Seq<char>) -> Option<(Seq<char>, Seq<char>, Seq<char>)> {
    let p = "// [[User:0xDeadbeef/usync]]:"@;
    if p.len() < s.len() && s.take(p.len() as int) == p {
        let ws = words(first_line(s.skip(p.len() as int)));
        if ws.len() == 3 {
            Some((ws[0], ws[1], ws[2]))
        } else {
            None
        }
    } else {
        None
    }
}

/// Decodes a declaration in the older form.
pub fn parse_js_header(s: &str) -> (r: Option<Header>)
    ensures
        match r {
            Some(h) => decode(s@) == Some(h@),
            None => decode(s@) is None,
        },
{
    let prefix = "// [[User:0xDeadbeef/usync]]:";
    if !str_starts_with(s, prefix) {
        return None;
    }
    let pl = prefix.unicode_len();
    if s.unicode_len() == pl {
        return None;
    }
    let v = line_from(s, pl);
    let ranges = word_ranges(&v);
    if ranges.len() != 3 {
        return None;
    }
    let ghost ws = words(v@);
    let (a0, b0) = ranges[0];
    let (a1, b1) = ranges[1];
    let (a2, b2) = ranges[2];
    assert(ranges_in(ranges@, v@.len() as int));
    assert(ranges@[0].0 <= ranges@[0].1 && ranges@[0].1 <= v@.len());
    assert(ranges@[1].0 <= ranges@[1].1 && ranges@[1].1 <= v@.len());
    assert(ranges@[2].0 <= ranges@[2].1 && ranges@[2].1 <= v@.len());
    assert(v@.subrange(a0 as int, b0 as int) == ws[0]);
    assert(v@.subrange(a1 as int, b1 as int) == ws[1]);
    assert(v@.subrange(a2 as int, b2 as int) == ws[2]);
    assert(v@.subrange(a0 as int, b0 as int) =~= s@.subrange(pl + a0, pl + b0));
    assert(v@.subrange(a1 as int, b1 as int) =~= s@.subrange(pl + a1, pl + b1));
    assert(v@.subrange(a2 as int, b2 as int) =~= s@.subrange(pl + a2, pl + b2));
    Some(
        Header {
            repo: String::from_str(s.substring_char(pl + a0, pl + b0)),
            ref_: String::from_str(s.substring_char(pl + a1, pl + b1)),
            file: String::from_str(s.substring_char(pl + a2, pl + b2)),
        },
    )
}

} // verus!
