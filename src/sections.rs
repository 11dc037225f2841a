//! The section scanner of the structural preview: heading-shaped lines
//! from the first pages of a document.

use vstd::prelude::*;
use vstd::string::*;
use crate::chars::{is_ws, is_whitespace, chars_of};
use crate::normalize::{split_lines, lemma_split_lines_append, lemma_split_lines_after_break};

verus! {

/// Only this many pages, from the first, are scanned.
pub const SECTION_PAGE_LIMIT: usize = 3;

/// At most this many sections are reported.
pub const SECTION_LIMIT: usize = 5;

/// A section title has more characters than this.
pub const SECTION_MIN_CHARS: usize = 5;

/// A section title has fewer characters than this.
pub const SECTION_MAX_CHARS: usize = 50;

/// The first index at or after `i` that does not hold whitespace.
pub open spec fn trim_start_index(s: Seq<char>, i: int) -> int
    decreases s.len() - i,
{
    if 0 <= i < s.len() && is_ws(s[i]) {
        trim_start_index(s, i + 1)
    } else {
        i
    }
}

/// The end of `s.take(j)` once its trailing whitespace is dropped.
pub open spec fn trim_end_index(s: Seq<char>, j: int) -> int
    decreases j,
{
    if 0 < j <= s.len() && is_ws(s[j - 1]) {
        trim_end_index(s, j - 1)
    } else {
        j
    }
}

/// `s` without its leading and trailing whitespace.
pub open spec fn trim(s: Seq<char>) -> Seq<char> {
    let a = trim_start_index(s, 0);
    if a >= s.len() {
        Seq::<char>::empty()
    } else {
        s.subrange(a, trim_end_index(s, s.len() as int))
    }
}

/// `l` without a final carriage return.
pub open spec fn drop_cr_end(l: Seq<char>) -> Seq<char> {
    if l.len() > 0 && l.last() == '\r' {
        l.drop_last()
    } else {
        l
    }
}

/// Each line of `ls` without a final carriage return.
pub open spec fn cr_dropped(ls: Seq<Seq<char>>) -> Seq<Seq<char>> {
    ls.map_values(|l: Seq<char>| drop_cr_end(l))
}

/// The lines of `s` as `str::lines` gives them: cut at line feeds, a
/// carriage return before a line feed dropped, and no final empty line.
pub open spec fn text_lines(s: Seq<char>) -> Seq<Seq<char>> {
    let ls = split_lines(s);
    let ended = cr_dropped(ls.drop_last());
    if ls.last().len() == 0 {
        ended
    } else {
        ended.push(ls.last())
    }
}

/// A trimmed line that may be a section title: its length lies strictly
/// between the two bounds and it does not end in a full stop or a comma.
pub open spec fn section_like(t: Seq<char>) -> bool {
    &&& SECTION_MIN_CHARS < t.len() < SECTION_MAX_CHARS
    &&& t.last() != '.'
    &&& t.last() != ','
}

/// The lines of `ls` that are section titles once trimmed, trimmed.
pub open spec fn section_lines(ls: Seq<Seq<char>>) -> Seq<Seq<char>>
    decreases ls.len(),
{
    if ls.len() == 0 {
        Seq::<Seq<char>>::empty()
    } else if section_like(trim(ls.last())) {
        section_lines(ls.drop_last()).push(trim(ls.last()))
    } else {
        section_lines(ls.drop_last())
    }
}

/// The section titles of the pages `pages`, page by page, in line order.
pub open spec fn page_sections(pages: Seq<Seq<char>>) -> Seq<Seq<char>>
    decreases pages.len(),
{
    if pages.len() == 0 {
        Seq::<Seq<char>>::empty()
    } else {
        page_sections(pages.drop_last()) + section_lines(text_lines(pages.last()))
    }
}

/// What the scanner reports for the page texts `pages`: the first section
/// titles of the first pages, up to the limits.
pub open spec fn scanned_sections(pages: Seq<Seq<char>>) -> Seq<Seq<char>> {
    let scanned = if pages.len() > SECTION_PAGE_LIMIT {
        pages.take(SECTION_PAGE_LIMIT as int)
    } else {
        pages
    };
    let found = page_sections(scanned);
    if found.len() > SECTION_LIMIT {
        found.take(SECTION_LIMIT as int)
    } else {
        found
    }
}

/// The bounds of `lo .. hi` of `t` once leading and trailing whitespace is
/// dropped (equal bounds when nothing is left).
fn trim_bounds(t: &Vec<char>, lo: usize, hi: usize) -> (r: (usize, usize))
    requires
        lo <= hi <= t@.len(),
    ensures
        lo <= r.0 <= r.1 <= hi,
        t@.subrange(r.0 as int, r.1 as int) == trim(t@.subrange(lo as int, hi as int)),
{
    let ghost l = t@.subrange(lo as int, hi as int);
    let mut a: usize = lo;
    while a < hi && is_whitespace(t[a])
        invariant
            lo <= a <= hi <= t@.len(),
            l == t@.subrange(lo as int, hi as int),
            trim_start_index(l, 0) == trim_start_index(l, a - lo),
        decreases hi - a,
    {
        a += 1;
    }
    if a == hi {
        return (hi, hi);
    }
    let mut b: usize = hi;
    while is_whitespace(t[b - 1])
        invariant
            lo <= a < b <= hi <= t@.len(),
            !is_ws(t@[a as int]),
            l == t@.subrange(lo as int, hi as int),
            trim_end_index(l, l.len() as int) == trim_end_index(l, b - lo),
        decreases b,
    {
        b -= 1;
    }
    proof {
        assert(t@.subrange(a as int, b as int) =~= l.subrange(a - lo, b - lo));
    }
    (a, b)
}

/// Appends to `out` the line `lo .. hi` of `text`, trimmed, when it is a
/// section title.
fn scan_line(out: &mut Vec<String>, text: &str, t: &Vec<char>, lo: usize, hi: usize)
    requires
        t@ == text@,
        lo <= hi <= t@.len(),
    ensures
        final(out)@.map_values(|s: String| s@) == old(out)@.map_values(|s: String| s@)
            + section_lines(seq![t@.subrange(lo as int, hi as int)]),
{
    let ghost l = t@.subrange(lo as int, hi as int);
    proof {
        assert(seq![l].drop_last() =~= Seq::<Seq<char>>::empty());
        assert(seq![l].last() == l);
        assert(section_lines(Seq::<Seq<char>>::empty()) == Seq::<Seq<char>>::empty());
    }
    let (a, b) = trim_bounds(t, lo, hi);
    let n = b - a;
    if SECTION_MIN_CHARS < n && n < SECTION_MAX_CHARS && t[b - 1] != '.' && t[b - 1] != ',' {
        let line = String::from_str(text.substring_char(a, b));
        let ghost before = out@.map_values(|s: String| s@);
        out.push(line);
        proof {
            let tl = t@.subrange(a as int, b as int);
            assert(tl.last() == t@[b - 1]);
            assert(section_like(tl));
            assert(out@.map_values(|s: String| s@) =~= before.push(tl));
            assert(section_lines(seq![l]) =~= seq![tl]);
        }
    } else {
        proof {
            let tl = t@.subrange(a as int, b as int);
            if tl.len() > 0 {
                assert(tl.last() == t@[b - 1]);
            }
            assert(!section_like(tl));
            assert(old(out)@.map_values(|s: String| s@) + section_lines(seq![l]) =~= old(
                out,
            )@.map_values(|s: String| s@));
        }
    }
}

proof fn lemma_section_lines_push(ls: Seq<Seq<char>>, l: Seq<char>)
    ensures
        section_lines(ls.push(l)) == section_lines(ls) + section_lines(seq![l]),
{
    assert(ls.push(l).drop_last() =~= ls);
    assert(ls.push(l).last() == l);
    assert(seq![l].drop_last() =~= Seq::<Seq<char>>::empty());
    assert(seq![l].last() == l);
    assert(section_lines(Seq::<Seq<char>>::empty()) == Seq::<Seq<char>>::empty());
    if section_like(trim(l)) {
        assert(section_lines(seq![l]) =~= seq![trim(l)]);
        assert(section_lines(ls).push(trim(l)) =~= section_lines(ls) + seq![trim(l)]);
    } else {
        assert(section_lines(seq![l]) =~= Seq::<Seq<char>>::empty());
        assert(section_lines(ls) + Seq::<Seq<char>>::empty() =~= section_lines(ls));
    }
}

/// Appends to `out` the section titles among the lines of `text`.
fn scan_page(out: &mut Vec<String>, text: &str)
    ensures
        final(out)@.map_values(|s: String| s@) == old(out)@.map_values(|s: String| s@)
            + section_lines(text_lines(text@)),
{
    let t = chars_of(text);
    let ghost base = old(out)@.map_values(|s: String| s@);
    let mut start: usize = 0;
    let mut i: usize = 0;
    proof {
        assert(t@.take(0) =~= Seq::<char>::empty());
        assert(split_lines(t@.take(0)).drop_last() =~= Seq::<Seq<char>>::empty());
        assert(cr_dropped(split_lines(t@.take(0)).drop_last()) =~= Seq::<Seq<char>>::empty());
        assert(out@.map_values(|s: String| s@) =~= base + Seq::<Seq<char>>::empty());
    }
    while i < t.len()
        invariant
            start <= i <= t@.len(),
            t@ == text@,
            split_lines(t@.take(i as int)).len() >= 1,
            split_lines(t@.take(i as int)).last() == t@.subrange(start as int, i as int),
            out@.map_values(|s: String| s@) == base + section_lines(
                cr_dropped(split_lines(t@.take(i as int)).drop_last()),
            ),
        decreases t@.len() - i,
    {
        let ghost ls = split_lines(t@.take(i as int));
        let ghost mid = out@.map_values(|s: String| s@);
        proof {
            assert(t@.take(i as int + 1).drop_last() =~= t@.take(i as int));
        }
        if t[i] == '\n' {
            let end = if i > start && t[i - 1] == '\r' {
                i - 1
            } else {
                i
            };
            scan_line(out, text, &t, start, end);
            proof {
                let cur = t@.subrange(start as int, i as int);
                assert(t@.subrange(start as int, end as int) =~= drop_cr_end(cur));
                let ls2 = split_lines(t@.take(i as int + 1));
                assert(ls2 == ls.push(Seq::<char>::empty()));
                assert(ls2.drop_last() =~= ls);
                assert(ls.drop_last().push(cur) =~= ls);
                assert(ls.last() == cur);
                assert(cr_dropped(ls) =~= cr_dropped(ls.drop_last()).push(drop_cr_end(cur)))
                    by {
                    assert forall|k: int| 0 <= k < ls.len() implies #[trigger] cr_dropped(ls)[k]
                        == cr_dropped(ls.drop_last()).push(drop_cr_end(cur))[k] by {
                        if k < ls.len() - 1 {
                            assert(ls.drop_last()[k] == ls[k]);
                        }
                    }
                }
                lemma_section_lines_push(cr_dropped(ls.drop_last()), drop_cr_end(cur));
                assert(out@.map_values(|s: String| s@) =~= base + section_lines(
                    cr_dropped(ls2.drop_last()),
                ));
            }
            start = i + 1;
            proof {
                assert(t@.subrange(start as int, i as int + 1) =~= Seq::<char>::empty());
            }
        } else {
            proof {
                let ls2 = split_lines(t@.take(i as int + 1));
                assert(ls2.drop_last() =~= ls.drop_last());
                assert(t@.subrange(start as int, i as int + 1) =~= t@.subrange(
                    start as int,
                    i as int,
                ).push(t@[i as int]));
            }
        }
        i += 1;
    }
    proof {
        assert(t@.take(t@.len() as int) =~= t@);
    }
    let ghost ls = split_lines(t@);
    let ghost ended = cr_dropped(ls.drop_last());
    if start < t.len() {
        scan_line(out, text, &t, start, t.len());
        proof {
            lemma_section_lines_push(ended, ls.last());
            assert(out@.map_values(|s: String| s@) =~= base + section_lines(ended.push(ls.last())));
        }
    } else {
        proof {
            assert(ls.last().len() == 0);
        }
    }
}

/// The section titles in the texts of the first pages of a document: each
/// line trimmed, kept when its length lies strictly between five and fifty
/// characters and it ends in neither a full stop nor a comma; page order,
/// then line order; at most five, from at most the first three pages.
pub fn sections_in_pages(pages: &Vec<String>) -> (r: Vec<String>)
    ensures
        r@.map_values(|s: String| s@) == scanned_sections(pages@.map_values(|p: String| p@)),
{
    let ghost all = pages@.map_values(|p: String| p@);
    let limit = if pages.len() > SECTION_PAGE_LIMIT {
        SECTION_PAGE_LIMIT
    } else {
        pages.len()
    };
    let ghost scanned = all.take(limit as int);
    let mut out: Vec<String> = Vec::new();
    let mut k: usize = 0;
    proof {
        assert(out@.map_values(|s: String| s@) =~= page_sections(all.take(0)));
    }
    while k < limit
        invariant
            k <= limit <= pages@.len(),
            all == pages@.map_values(|p: String| p@),
            out@.map_values(|s: String| s@) == page_sections(all.take(k as int)),
        decreases limit - k,
    {
        scan_page(&mut out, pages[k].as_str());
        proof {
            assert(all.take(k as int + 1).drop_last() =~= all.take(k as int));
            assert(all.take(k as int + 1).last() == pages@[k as int]@);
        }
        k += 1;
    }
    proof {
        if pages.len() <= SECTION_PAGE_LIMIT {
            assert(all.take(limit as int) =~= all);
        }
    }
    if out.len() > SECTION_LIMIT {
        out.truncate(SECTION_LIMIT);
        proof {
            assert(out@.map_values(|s: String| s@) =~= page_sections(scanned).take(
                SECTION_LIMIT as int,
            ));
        }
    }
    out
}


/// `l` is one line with no whitespace at either end.
pub open spec fn bare_line(l: Seq<char>) -> bool {
    &&& l.len() > 0
    &&& !is_ws(l[0])
    &&& !is_ws(l.last())
    &&& forall|i: int| 0 <= i < l.len() ==> #[trigger] l[i] != '\n'
}

proof fn lemma_bare_line_trim(l: Seq<char>)
    requires
        bare_line(l),
    ensures
        trim(l) == l,
{
    assert(trim_start_index(l, 0) == 0);
    assert(trim_end_index(l, l.len() as int) == l.len());
    assert(l.subrange(0, l.len() as int) =~= l);
}

/// `l` holds no line feed.
pub open spec fn one_line(l: Seq<char>) -> bool {
    forall|i: int| 0 <= i < l.len() ==> #[trigger] l[i] != '\n'
}

/// The lines of a page made of the line `a`, a line feed, and the line `b`.
proof fn lemma_two_line_page(a: Seq<char>, b: Seq<char>)
    requires
        bare_line(a),
        one_line(b),
        b.len() > 0,
    ensures
        text_lines(a + seq!['\n'] + b) == seq![a, b],
{
    let e = Seq::<char>::empty();
    lemma_split_lines_append(e, a);
    assert(e + a =~= a);
    assert(split_lines(e) == seq![e]);
    assert(split_lines(a) =~= seq![a]);
    lemma_split_lines_after_break(a, b);
    let ls = split_lines(a + seq!['\n'] + b);
    assert(ls =~= seq![a, b]);
    assert(ls.drop_last() =~= seq![a]);
    assert(cr_dropped(seq![a]) =~= seq![a]);
}

/// The section titles of a page made of the line `a`, a line feed, and the
/// line `b`, where `a` is a title and `b`, trimmed, is too long to be one.
proof fn lemma_title_and_long_line(a: Seq<char>, b: Seq<char>)
    requires
        bare_line(a),
        section_like(a),
        one_line(b),
        trim(b).len() >= SECTION_MAX_CHARS,
    ensures
        section_lines(text_lines(a + seq!['\n'] + b)) == seq![a],
{
    if b.len() == 0 {
        assert(trim_start_index(b, 0) == 0);
    }
    lemma_two_line_page(a, b);
    lemma_bare_line_trim(a);
    let ls = seq![a, b];
    assert(ls.drop_last() =~= seq![a]);
    assert(ls.last() == b);
    assert(seq![a].drop_last() =~= Seq::<Seq<char>>::empty());
    assert(section_lines(Seq::<Seq<char>>::empty()) == Seq::<Seq<char>>::empty());
    assert(section_lines(seq![a]) =~= seq![a]);
}

/// Three pages, each made of a ten-character title line (no whitespace at
/// its ends, not ending in a full stop or a comma)
/// followed by a line of sixty characters once trimmed: the scanner reports
/// exactly the three titles, in page order.
pub proof fn lemma_scanner_keeps_titles_of_three_pages(titles: Seq<Seq<char>>, longs: Seq<Seq<char>>)
    requires
        titles.len() == 3,
        longs.len() == 3,
        forall|i: int|
            0 <= i < 3 ==> {
                let a = #[trigger] titles[i];
                &&& bare_line(a)
                &&& a.len() == 10
                &&& a.last() != '.' && a.last() != ','
            },
        forall|i: int| 0 <= i < 3 ==> one_line(#[trigger] longs[i]) && trim(longs[i]).len() == 60,
    ensures
        scanned_sections(
            seq![
                titles[0] + seq!['\n'] + longs[0],
                titles[1] + seq!['\n'] + longs[1],
                titles[2] + seq!['\n'] + longs[2],
            ],
        ) == titles,
{
    let p0 = titles[0] + seq!['\n'] + longs[0];
    let p1 = titles[1] + seq!['\n'] + longs[1];
    let p2 = titles[2] + seq!['\n'] + longs[2];
    let pages = seq![p0, p1, p2];
    assert(bare_line(titles[0]) && one_line(longs[0]));
    assert(bare_line(titles[1]) && one_line(longs[1]));
    assert(bare_line(titles[2]) && one_line(longs[2]));
    lemma_title_and_long_line(titles[0], longs[0]);
    lemma_title_and_long_line(titles[1], longs[1]);
    lemma_title_and_long_line(titles[2], longs[2]);
    assert(pages.drop_last() =~= seq![p0, p1]);
    assert(seq![p0, p1].drop_last() =~= seq![p0]);
    assert(seq![p0].drop_last() =~= Seq::<Seq<char>>::empty());
    assert(page_sections(Seq::<Seq<char>>::empty()) == Seq::<Seq<char>>::empty());
    assert(page_sections(seq![p0]) =~= seq![titles[0]]);
    assert(page_sections(seq![p0, p1]) =~= seq![titles[0], titles[1]]);
    assert(page_sections(pages) =~= titles);
}

} // verus!
