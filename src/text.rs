//! Character-level helpers over `Vec<char>` ranges, each proved against a
//! plain statement over `Seq<char>`.
use vstd::prelude::*;
use vstd::std_specs::iter::IteratorSpec;

verus! {

/// Unicode `White_Space`, the set that `char::is_whitespace` tests.
pub open spec fn is_space(c: char) -> bool {
    let u = c as u32;
    (0x09 <= u && u <= 0x0d) || u == 0x20 || u == 0x85 || u == 0xa0 || u == 0x1680 || (0x2000
        <= u && u <= 0x200a) || u == 0x2028 || u == 0x2029 || u == 0x202f || u == 0x205f || u
        == 0x3000
}

/// Number of whitespace characters at the start of `s`.
pub open spec fn lead(s: Seq<char>) -> nat
    decreases s.len(),
{
    if s.len() > 0 && is_space(s[0]) {
        1 + lead(s.drop_first())
    } else {
        0
    }
}

/// Number of whitespace characters at the end of `s`.
pub open spec fn trail(s: Seq<char>) -> nat
    decreases s.len(),
{
    if s.len() > 0 && is_space(s.last()) {
        1 + trail(s.drop_last())
    } else {
        0
    }
}

/// Index of the first `c` in `s`, or `s.len()` where there is none.
pub open spec fn pos(s: Seq<char>, c: char) -> nat
    decreases s.len(),
{
    if s.len() == 0 || s[0] == c {
        0
    } else {
        1 + pos(s.drop_first(), c)
    }
}

pub open spec fn trim_start(s: Seq<char>) -> Seq<char> {
    s.subrange(lead(s) as int, s.len() as int)
}

pub open spec fn trim_end(s: Seq<char>) -> Seq<char> {
    s.subrange(0, s.len() - trail(s))
}

pub open spec fn trim(s: Seq<char>) -> Seq<char> {
    trim_end(trim_start(s))
}

/// The pieces of `s` between occurrences of `c`, as `str::split` yields them.
pub open spec fn split(s: Seq<char>, c: char) -> Seq<Seq<char>>
    decreases s.len(),
{
    if s.len() == 0 {
        seq![Seq::empty()]
    } else {
        let p = split(s.drop_last(), c);
        if s.last() == c {
            p.push(Seq::empty())
        } else {
            p.update(p.len() - 1, p.last().push(s.last()))
        }
    }
}

pub proof fn lemma_split_nonempty(s: Seq<char>, c: char)
    ensures
        split(s, c).len() >= 1,
    decreases s.len(),
{
    if s.len() > 0 {
        lemma_split_nonempty(s.drop_last(), c);
    }
}

/// Where `a` holds no `c`, the first `c` of `a + b` is the first of `b`,
/// shifted by the length of `a`.
pub proof fn lemma_pos_concat(a: Seq<char>, b: Seq<char>, c: char)
    requires
        forall|i: int| 0 <= i < a.len() ==> a[i] != c,
    ensures
        pos(a + b, c) == a.len() + pos(b, c),
    decreases a.len(),
{
    if a.len() > 0 {
        assert((a + b).drop_first() =~= a.drop_first() + b);
        lemma_pos_concat(a.drop_first(), b, c);
    } else {
        assert(a + b =~= b);
    }
}

/// A sequence that neither begins nor ends with whitespace is its own trim.
pub proof fn lemma_trim_unchanged(s: Seq<char>)
    requires
        s.len() > 0,
        !is_space(s[0]),
        !is_space(s.last()),
    ensures
        trim(s) == s,
{
    assert(lead(s) == 0);
    assert(trim_start(s) =~= s);
    assert(trail(s) == 0);
    assert(trim_end(s) =~= s);
}

/// A sequence without the separator splits into itself alone.
pub proof fn lemma_split_whole(s: Seq<char>, c: char)
    requires
        forall|i: int| 0 <= i < s.len() ==> s[i] != c,
    ensures
        split(s, c) == seq![s],
    decreases s.len(),
{
    if s.len() > 0 {
        lemma_split_whole(s.drop_last(), c);
        assert(s.drop_last().push(s.last()) =~= s);
        assert(seq![s.drop_last()].update(0, s) =~= seq![s]);
    } else {
        assert(s =~= Seq::<char>::empty());
    }
}

/// Splitting at a separator between `x` and `y` splits each side apart.
pub proof fn lemma_split_concat(x: Seq<char>, y: Seq<char>, c: char)
    ensures
        split(x + seq![c] + y, c) == split(x, c) + split(y, c),
    decreases y.len(),
{
    let xs = x + seq![c];
    if y.len() == 0 {
        assert(xs + y =~= xs);
        assert(xs.drop_last() =~= x);
        assert(split(x, c).push(Seq::empty()) =~= split(x, c) + seq![Seq::<char>::empty()]);
    } else {
        let yl = y.drop_last();
        lemma_split_concat(x, yl, c);
        lemma_split_nonempty(yl, c);
        assert((xs + y).drop_last() =~= xs + yl);
        assert((xs + y).last() == y.last());
        let p = split(x, c) + split(yl, c);
        if y.last() == c {
            assert(p.push(Seq::empty()) =~= split(x, c) + split(yl, c).push(Seq::empty()));
        } else {
            let q = split(yl, c);
            assert(p.update(p.len() - 1, p.last().push(y.last())) =~= split(x, c) + q.update(
                q.len() - 1,
                q.last().push(y.last()),
            ));
        }
    }
}

pub fn is_space_char(c: char) -> (r: bool)
    ensures
        r == is_space(c),
{
    let u = c as u32;
    (0x09 <= u && u <= 0x0d) || u == 0x20 || u == 0x85 || u == 0xa0 || u == 0x1680 || (0x2000
        <= u && u <= 0x200a) || u == 0x2028 || u == 0x2029 || u == 0x202f || u == 0x205f || u
        == 0x3000
}

/// First index in `lo..hi` that does not hold whitespace.
pub fn skip_lead(v: &Vec<char>, lo: usize, hi: usize) -> (r: usize)
    requires
        lo <= hi <= v.len(),
    ensures
        r == lo + lead(v@.subrange(lo as int, hi as int)),
        lo <= r <= hi,
{
    let mut i: usize = lo;
    while i < hi && is_space_char(v[i])
        invariant
            lo <= i <= hi <= v.len(),
            lead(v@.subrange(lo as int, hi as int)) == (i - lo) + lead(
                v@.subrange(i as int, hi as int),
            ),
        decreases hi - i,
    {
        assert(v@.subrange(i as int, hi as int).drop_first() =~= v@.subrange(
            i as int + 1,
            hi as int,
        ));
        i = i + 1;
    }
    i
}

/// End of `lo..hi` once the whitespace at its end is left out.
pub fn skip_trail(v: &Vec<char>, lo: usize, hi: usize) -> (r: usize)
    requires
        lo <= hi <= v.len(),
    ensures
        r == hi - trail(v@.subrange(lo as int, hi as int)),
        lo <= r <= hi,
{
    let mut j: usize = hi;
    while j > lo && is_space_char(v[j - 1])
        invariant
            lo <= j <= hi <= v.len(),
            trail(v@.subrange(lo as int, hi as int)) == (hi - j) + trail(
                v@.subrange(lo as int, j as int),
            ),
        decreases j - lo,
    {
        assert(v@.subrange(lo as int, j as int).drop_last() =~= v@.subrange(
            lo as int,
            j as int - 1,
        ));
        j = j - 1;
    }
    j
}

/// The range of `lo..hi` with whitespace trimmed from both ends.
pub fn trim_range(v: &Vec<char>, lo: usize, hi: usize) -> (r: (usize, usize))
    requires
        lo <= hi <= v.len(),
    ensures
        lo <= r.0 <= r.1 <= hi,
        v@.subrange(r.0 as int, r.1 as int) == trim(v@.subrange(lo as int, hi as int)),
{
    let a = skip_lead(v, lo, hi);
    let b = skip_trail(v, a, hi);
    proof {
        let s = v@.subrange(lo as int, hi as int);
        assert(trim_start(s) =~= v@.subrange(a as int, hi as int));
        assert(trim(s) =~= v@.subrange(a as int, b as int));
    }
    (a, b)
}

/// Index of the first `c` in `lo..hi`, or `hi`.
pub fn find_char(v: &Vec<char>, lo: usize, hi: usize, c: char) -> (r: usize)
    requires
        lo <= hi <= v.len(),
    ensures
        r == lo + pos(v@.subrange(lo as int, hi as int), c),
        lo <= r <= hi,
        r < hi ==> v@[r as int] == c,
{
    let mut i: usize = lo;
    while i < hi && v[i] != c
        invariant
            lo <= i <= hi <= v.len(),
            pos(v@.subrange(lo as int, hi as int), c) == (i - lo) + pos(
                v@.subrange(i as int, hi as int),
                c,
            ),
        decreases hi - i,
    {
        assert(v@.subrange(i as int, hi as int).drop_first() =~= v@.subrange(
            i as int + 1,
            hi as int,
        ));
        i = i + 1;
    }
    i
}

/// Whether the characters of `a..b` are exactly those of `pat`.
pub fn range_eq(v: &Vec<char>, a: usize, b: usize, pat: &str) -> (r: bool)
    requires
        a <= b <= v.len(),
    ensures
        r == (v@.subrange(a as int, b as int) == pat@),
{
    let n = pat.unicode_len();
    if b - a != n {
        return false;
    }
    let mut j: usize = 0;
    while j < n
        invariant
            a <= b <= v.len(),
            b - a == n == pat@.len(),
            j <= n,
            forall|k: int| 0 <= k < j ==> v@[a + k] == pat@[k],
        decreases n - j,
    {
        if v[a + j] != pat.get_char(j) {
            assert(v@.subrange(a as int, b as int)[j as int] != pat@[j as int]);
            return false;
        }
        j = j + 1;
    }
    assert(v@.subrange(a as int, b as int) =~= pat@);
    true
}

/// Whether `a..b` begins with the characters of `pat`.
pub fn range_starts_with(v: &Vec<char>, a: usize, b: usize, pat: &str) -> (r: bool)
    requires
        a <= b <= v.len(),
    ensures
        r == (pat@.len() <= b - a && v@.subrange(a as int, a + pat@.len()) == pat@),
{
    let n = pat.unicode_len();
    if b - a < n {
        return false;
    }
    range_eq(v, a, a + n, pat)
}

/// Whether `a..b` ends with the characters of `pat`.
pub fn range_ends_with(v: &Vec<char>, a: usize, b: usize, pat: &str) -> (r: bool)
    requires
        a <= b <= v.len(),
    ensures
        r == (pat@.len() <= b - a && v@.subrange(b - pat@.len(), b as int) == pat@),
{
    let n = pat.unicode_len();
    if b - a < n {
        return false;
    }
    range_eq(v, b - n, b, pat)
}

/// `s` with each occurrence of `p`, taken from the left without overlap,
/// replaced by `w`, as `str::replace` does it.
pub open spec fn replace(s: Seq<char>, p: Seq<char>, w: Seq<char>) -> Seq<char>
    decreases s.len(),
{
    if s.len() == 0 {
        Seq::empty()
    } else if 0 < p.len() <= s.len() && s.take(p.len() as int) == p {
        w + replace(s.skip(p.len() as int), p, w)
    } else {
        seq![s[0]] + replace(s.drop_first(), p, w)
    }
}

/// The characters of `s`.
pub fn chars_of(s: &str) -> (v: Vec<char>)
    ensures
        v@ == s@,
{
    broadcast use vstd::string::group_string_axioms;

    let mut it = s.chars();
    let mut v: Vec<char> = Vec::new();
    assert(v@ + it.remaining() =~= s@);
    loop
        invariant
            v@ + it.remaining() == s@,
            it.decrease() is Some,
        ensures
            v@ == s@,
        decreases it.decrease()->0,
    {
        match it.next() {
            Some(c) => {
                v.push(c);
                assert(v@ + it.remaining() =~= s@);
            },
            None => {
                assert(v@ =~= s@);
                break ;
            },
        }
    }
    v
}

/// `s` with each occurrence of `p` replaced by `w`.
pub fn replace_str(s: &str, p: &str, w: &str) -> (r: String)
    requires
        p@.len() > 0,
    ensures
        r@ == replace(s@, p@, w@),
{
    let v = chars_of(s);
    let n = v.len();
    let pl = p.unicode_len();
    let mut out = String::new();
    let mut run: usize = 0;
    let mut i: usize = 0;
    assert(v@.subrange(0, n as int) =~= s@);
    assert(out@ + v@.subrange(0, 0) =~= Seq::<char>::empty());
    while i < n
        invariant
            v@ == s@,
            n == v@.len(),
            pl == p@.len(),
            pl > 0,
            run <= i <= n,
            replace(s@, p@, w@) == out@ + v@.subrange(run as int, i as int) + replace(
                v@.subrange(i as int, n as int),
                p@,
                w@,
            ),
        decreases n - i,
    {
        let ghost rest = v@.subrange(i as int, n as int);
        let ghost before = out@;
        let ghost pending = v@.subrange(run as int, i as int);
        if range_starts_with(&v, i, n, p) {
            assert(rest.take(pl as int) =~= v@.subrange(i as int, i + pl));
            assert(rest.skip(pl as int) =~= v@.subrange(i + pl, n as int));
            out.append(s.substring_char(run, i));
            out.append(w);
            assert(before + pending + (w@ + replace(rest.skip(pl as int), p@, w@)) =~= out@
                + v@.subrange(i + pl, i + pl) + replace(v@.subrange(i + pl, n as int), p@, w@));
            i = i + pl;
            run = i;
        } else {
            assert(!(0 < pl <= rest.len() && rest.take(pl as int) == p@)) by {
                if pl <= rest.len() && rest.take(pl as int) == p@ {
                    assert(rest.take(pl as int) =~= v@.subrange(i as int, i + pl));
                }
            }
            assert(rest.drop_first() =~= v@.subrange(i + 1, n as int));
            assert(before + pending + (seq![rest[0]] + replace(rest.drop_first(), p@, w@))
                =~= before + v@.subrange(run as int, i + 1) + replace(
                v@.subrange(i + 1, n as int),
                p@,
                w@,
            ));
            i = i + 1;
        }
    }
    let ghost before = out@;
    out.append(s.substring_char(run, n));
    assert(before + v@.subrange(run as int, n as int) + replace(
        v@.subrange(n as int, n as int),
        p@,
        w@,
    ) =~= out@);
    out
}

/// The text up to the first line feed.
pub open spec fn first_line(s: Seq<char>) -> Seq<char> {
    s.take(pos(s, '\n') as int)
}

/// The characters of the first line of `s` from `start` on.
pub fn line_from(s: &str, start: usize) -> (v: Vec<char>)
    requires
        start <= s@.len(),
    ensures
        v@ == first_line(s@.skip(start as int)),
        start + v@.len() <= s@.len(),
        v@ == s@.subrange(start as int, start + v@.len()),
{
    broadcast use vstd::string::group_string_axioms;

    let n = s.unicode_len();
    let mut it = s.chars();
    let mut i: usize = 0;
    assert(it.remaining() =~= s@.skip(0));
    while i < start
        invariant
            n == s@.len(),
            start <= n,
            i <= start,
            it.remaining() == s@.skip(i as int),
        decreases start - i,
    {
        let _ = it.next();
        assert(it.remaining() =~= s@.skip(i + 1));
        i = i + 1;
    }
    let mut v: Vec<char> = Vec::new();
    let ghost rest = s@.skip(start as int);
    assert(s@.subrange(start as int, n as int) =~= rest);
    loop
        invariant_except_break
            it.remaining() == s@.skip(i as int),
        invariant
            n == s@.len(),
            start <= i <= n,
            rest == s@.skip(start as int),
            v@ == s@.subrange(start as int, i as int),
            pos(rest, '\n') == (i - start) + pos(s@.subrange(i as int, n as int), '\n'),
        ensures
            start <= i <= n,
            v@ == s@.subrange(start as int, i as int),
            pos(rest, '\n') == i - start,
        decreases n - i,
    {
        match it.next() {
            Some(c) => {
                assert(c == s@[i as int]);
                if c == '\n' {
                    break ;
                }
                assert(s@.subrange(i as int, n as int).drop_first() =~= s@.subrange(
                    i as int + 1,
                    n as int,
                ));
                v.push(c);
                assert(v@ =~= s@.subrange(start as int, i + 1));
                assert(it.remaining() =~= s@.skip(i + 1));
                i = i + 1;
            },
            None => {
                assert(i == n);
                break ;
            },
        }
    }
    assert(v@ =~= rest.take(i - start));
    v
}

/// Whether the two texts hold the same characters.
pub fn same_text(a: &str, b: &str) -> (r: bool)
    ensures
        r == (a@ == b@),
{
    let x = chars_of(a);
    let y = chars_of(b);
    if x.len() != y.len() {
        return false;
    }
    let mut j: usize = 0;
    while j < x.len()
        invariant
            x@ == a@,
            y@ == b@,
            x@.len() == y@.len(),
            j <= x@.len(),
            forall|k: int| 0 <= k < j ==> x@[k] == y@[k],
        decreases x@.len() - j,
    {
        if x[j] != y[j] {
            return false;
        }
        j = j + 1;
    }
    assert(x@ =~= y@);
    true
}

/// Whether `s` begins with the characters of `p`.
pub fn str_starts_with(s: &str, p: &str) -> (r: bool)
    ensures
        r == (p@.len() <= s@.len() && s@.take(p@.len() as int) == p@),
{
    let n = s.unicode_len();
    let m = p.unicode_len();
    if n < m {
        return false;
    }
    let mut j: usize = 0;
    while j < m
        invariant
            m == p@.len() <= n == s@.len(),
            j <= m,
            forall|k: int| 0 <= k < j ==> s@[k] == p@[k],
        decreases m - j,
    {
        if s.get_char(j) != p.get_char(j) {
            assert(s@.take(m as int)[j as int] != p@[j as int]);
            return false;
        }
        j = j + 1;
    }
    assert(s@.take(m as int) =~= p@);
    true
}

/// The maximal runs of non-whitespace characters of `s`, as
/// `str::split_whitespace` yields them.
pub open spec fn words(s: Seq<char>) -> Seq<Seq<char>>
    decreases s.len(),
{
    if s.len() == 0 {
        Seq::empty()
    } else {
        let p = words(s.drop_last());
        let c = s.last();
        if is_space(c) {
            p
        } else if s.len() >= 2 && !is_space(s[s.len() - 2]) {
            p.update(p.len() - 1, p.last().push(c))
        } else {
            p.push(seq![c])
        }
    }
}

pub open spec fn ranges_in(r: Seq<(usize, usize)>, n: int) -> bool {
    forall|j: int| #![trigger r[j]] 0 <= j < r.len() ==> r[j].0 <= r[j].1 && r[j].1 <= n
}

/// The ranges of the words of `v`.
pub fn word_ranges(v: &Vec<char>) -> (r: Vec<(usize, usize)>)
    ensures
        r@.len() == words(v@).len(),
        ranges_in(r@, v@.len() as int),
        forall|j: int|
            0 <= j < r@.len() ==> v@.subrange(r@[j].0 as int, r@[j].1 as int) == #[trigger] words(
                v@,
            )[j],
{
    let mut ranges: Vec<(usize, usize)> = Vec::new();
    let mut i: usize = 0;
    while i < v.len()
        invariant
            i <= v@.len(),
            ranges@.len() == words(v@.take(i as int)).len(),
            ranges_in(ranges@, i as int),
            forall|j: int|
                0 <= j < ranges@.len() ==> v@.subrange(ranges@[j].0 as int, ranges@[j].1 as int)
                    == #[trigger] words(v@.take(i as int))[j],
            i > 0 && !is_space(v@[i - 1]) ==> ranges@.len() > 0 && ranges@.last().1 == i,
        decreases v@.len() - i,
    {
        let ghost t = v@.take(i + 1);
        let ghost prev = words(v@.take(i as int));
        let ghost old_ranges = ranges@;
        assert(t.drop_last() =~= v@.take(i as int));
        let c = v[i];
        if is_space_char(c) {
            assert(words(t) == prev);
        } else if i > 0 && !is_space_char(v[i - 1]) {
            let last = ranges.len() - 1;
            let (a, _) = ranges[last];
            assert(t[t.len() - 2] == v@[i - 1]);
            ranges.set(last, (a, i + 1));
            assert(words(t) == prev.update(last as int, prev[last as int].push(c)));
            assert(v@.subrange(a as int, i + 1) =~= v@.subrange(a as int, i as int).push(c));
        } else {
            ranges.push((i, i + 1));
            assert(words(t) == prev.push(seq![c]));
            assert(v@.subrange(i as int, i + 1) =~= seq![c]);
        }
        assert(ranges_in(ranges@, i + 1)) by {
            assert forall|j: int| #![trigger ranges@[j]] 0 <= j < ranges@.len() implies ranges@[j].0
                <= ranges@[j].1 && ranges@[j].1 <= i + 1 by {
                if j < old_ranges.len() {
                    assert(old_ranges[j].0 <= old_ranges[j].1 && old_ranges[j].1 <= i);
                }
            }
        }
        assert forall|j: int| 0 <= j < ranges@.len() implies v@.subrange(
            ranges@[j].0 as int,
            ranges@[j].1 as int,
        ) == #[trigger] words(t)[j] by {
            if j < prev.len() && !(j == prev.len() - 1 && !is_space(c) && i > 0 && !is_space(
                v@[i - 1],
            )) {
                assert(words(t)[j] == prev[j]);
            }
        }
        i = i + 1;
    }
    assert(v@.take(v@.len() as int) =~= v@);
    ranges
}

} // verus!
