//! Markdown formatting of cleaned text: paragraphs are rejoined into single
//! lines, and headings are recognised either glued to the start of a
//! paragraph or as a short paragraph in capitals.

use vstd::prelude::*;
use vstd::string::*;
use crate::chars::{
    is_ws, is_upper, is_lower, is_alpha, is_uppercase, is_lowercase, is_alphabetic, chars_of,
    string_of, push_all,
};
use crate::normalize::{collapse, collapse_range};

verus! {

/// A paragraph is a heading only when it has fewer characters than this.
pub const HEADING_MAX_CHARS: usize = 60;

/// A paragraph is a heading only when more than this many tenths of its
/// letters are upper case.
pub const HEADING_UPPER_TENTHS: usize = 7;

/// The words that are recognised as a heading glued to the start of a
/// paragraph, in the order they are tried.
pub open spec fn heading_words() -> Seq<Seq<char>> {
    seq![
        "Introduction"@,
        "Abstract"@,
        "Summary"@,
        "Overview"@,
        "Background"@,
        "Features"@,
        "Conclusion"@,
        "Results"@,
        "Discussion"@,
        "Methods"@,
        "Acknowledgments"@,
        "References"@,
        "Appendix"@,
    ]
}

/// The number of heading words.
pub const HEADING_WORD_COUNT: usize = 13;

/// The heading word at position `k`.
fn heading_word(k: usize) -> (r: &'static str)
    requires
        k < HEADING_WORD_COUNT,
    ensures
        r@ == heading_words()[k as int],
{
    match k {
        0 => "Introduction",
        1 => "Abstract",
        2 => "Summary",
        3 => "Overview",
        4 => "Background",
        5 => "Features",
        6 => "Conclusion",
        7 => "Results",
        8 => "Discussion",
        9 => "Methods",
        10 => "Acknowledgments",
        11 => "References",
        _ => "Appendix",
    }
}

/// `t` starts with the word `w`, and an upper-case character follows it at
/// once.
pub open spec fn glued_at(t: Seq<char>, w: Seq<char>) -> bool {
    &&& w.len() < t.len()
    &&& t.take(w.len() as int) == w
    &&& is_upper(t[w.len() as int])
}

/// The position of the first heading word, from position `k` on, that `t`
/// starts with glued to what follows.
pub open spec fn glued_word_from(t: Seq<char>, k: nat) -> Option<nat>
    decreases heading_words().len() - k,
{
    if k >= heading_words().len() {
        None
    } else if glued_at(t, heading_words()[k as int]) {
        Some(k)
    } else {
        glued_word_from(t, k + 1)
    }
}

/// The heading word that `t` starts with, glued to the text after it, and
/// that text; `None` when there is none.
pub open spec fn glued_heading(t: Seq<char>) -> Option<(Seq<char>, Seq<char>)> {
    match glued_word_from(t, 0) {
        Some(k) => Some(
            (heading_words()[k as int], t.skip(heading_words()[k as int].len() as int)),
        ),
        None => None,
    }
}

/// The number of alphabetic characters in `t`.
pub open spec fn letter_count(t: Seq<char>) -> nat
    decreases t.len(),
{
    if t.len() == 0 {
        0
    } else {
        letter_count(t.drop_last()) + if is_alpha(t.last()) { 1nat } else { 0nat }
    }
}

/// The number of alphabetic characters in `t` that are upper case.
pub open spec fn upper_letter_count(t: Seq<char>) -> nat
    decreases t.len(),
{
    if t.len() == 0 {
        0
    } else {
        upper_letter_count(t.drop_last()) + if is_alpha(t.last()) && is_upper(t.last()) {
            1nat
        } else {
            0nat
        }
    }
}

/// `t` reads as a heading: it is short, holds no lower-case letter, and
/// more than seven tenths of its letters (at least one) are upper case.
pub open spec fn looks_like_heading(t: Seq<char>) -> bool {
    &&& t.len() < HEADING_MAX_CHARS
    &&& forall|i: int| 0 <= i < t.len() ==> !(is_lower(#[trigger] t[i]) && is_alpha(t[i]))
    &&& letter_count(t) > 0
    &&& 10 * upper_letter_count(t) > HEADING_UPPER_TENTHS * letter_count(t)
}

/// The Markdown marker of a level-two heading.
pub open spec fn heading_marker() -> Seq<char> {
    seq!['#', '#', ' ']
}

/// A blank line.
pub open spec fn blank_line() -> Seq<char> {
    seq!['\n', '\n']
}

/// How a paragraph whose whitespace is already collapsed is rendered: a
/// glued heading is split off onto a heading line of its own, a paragraph
/// that reads as a heading becomes one, and anything else stays as it is.
pub open spec fn render_paragraph(c: Seq<char>) -> Seq<char> {
    match glued_heading(c) {
        Some((h, body)) => heading_marker() + h + blank_line() + body,
        None => if looks_like_heading(c) {
            heading_marker() + c
        } else {
            c
        },
    }
}

/// What `format_paragraph` makes of `p`.
pub open spec fn formatted_paragraph(p: Seq<char>) -> Seq<char> {
    render_paragraph(collapse(p))
}

/// `t` cut at each pair of line feeds, scanning from left to right; `start`
/// is where the current piece began and `i` where the scan stands.
pub open spec fn pieces_from(t: Seq<char>, start: int, i: int) -> Seq<Seq<char>>
    decreases t.len() - i,
{
    if i >= t.len() {
        seq![t.subrange(start, t.len() as int)]
    } else if i + 1 < t.len() && t[i] == '\n' && t[i + 1] == '\n' {
        seq![t.subrange(start, i)] + pieces_from(t, i + 2, i + 2)
    } else {
        pieces_from(t, start, i + 1)
    }
}

/// `t` cut at each pair of line feeds, as `str::split("\n\n")` does.
pub open spec fn pieces(t: Seq<char>) -> Seq<Seq<char>> {
    pieces_from(t, 0, 0)
}

/// The pieces `ps` that hold more than whitespace, each formatted.
pub open spec fn formatted_pieces(ps: Seq<Seq<char>>) -> Seq<Seq<char>>
    decreases ps.len(),
{
    if ps.len() == 0 {
        Seq::<Seq<char>>::empty()
    } else if collapse(ps.last()).len() == 0 {
        formatted_pieces(ps.drop_last())
    } else {
        formatted_pieces(ps.drop_last()).push(formatted_paragraph(ps.last()))
    }
}

/// The texts `xs` with a blank line between two of them.
pub open spec fn join_blank(xs: Seq<Seq<char>>) -> Seq<char>
    decreases xs.len(),
{
    if xs.len() == 0 {
        Seq::<char>::empty()
    } else if xs.len() == 1 {
        xs[0]
    } else {
        join_blank(xs.drop_last()) + blank_line() + xs.last()
    }
}

/// What `format_content` makes of `t`.
pub open spec fn formatted(t: Seq<char>) -> Seq<char> {
    join_blank(formatted_pieces(pieces(t)))
}

/// Whether `t` starts with `w` glued to an upper-case character.
fn starts_glued(t: &Vec<char>, w: &str) -> (r: bool)
    ensures
        r == glued_at(t@, w@),
{
    let n = w.unicode_len();
    if n >= t.len() {
        return false;
    }
    let mut j: usize = 0;
    while j < n
        invariant
            j <= n < t@.len(),
            n == w@.len(),
            forall|jj: int| 0 <= jj < j ==> t@[jj] == w@[jj],
        decreases n - j,
    {
        if t[j] != w.get_char(j) {
            proof {
                assert(t@.take(n as int)[j as int] != w@[j as int]);
            }
            return false;
        }
        j += 1;
    }
    proof {
        assert(t@.take(n as int) =~= w@);
    }
    is_uppercase(t[n])
}

/// The position of the heading word that `t` starts with, glued to what
/// follows it.
fn glued_word(t: &Vec<char>) -> (r: Option<usize>)
    ensures
        match r {
            Some(k) => glued_word_from(t@, 0) == Some(k as nat) && k < HEADING_WORD_COUNT
                && glued_at(t@, heading_words()[k as int]),
            None => glued_word_from(t@, 0) is None,
        },
{
    let mut k: usize = 0;
    while k < HEADING_WORD_COUNT
        invariant
            k <= HEADING_WORD_COUNT,
            glued_word_from(t@, 0) == glued_word_from(t@, k as nat),
        decreases HEADING_WORD_COUNT - k,
    {
        if starts_glued(t, heading_word(k)) {
            return Some(k);
        }
        k += 1;
    }
    None
}

/// Splits a heading word off the start of `text` when the text after it
/// follows with no space and begins with an upper-case letter (as in
/// "IntroductionThis is ..."): the heading and the rest, or `None`.
pub fn split_concatenated_header(text: &str) -> (r: Option<(String, String)>)
    ensures
        match r {
            Some((h, body)) => glued_heading(text@) == Some((h@, body@)),
            None => glued_heading(text@) is None,
        },
{
    let t = chars_of(text);
    match glued_word(&t) {
        Some(k) => {
            let w = heading_word(k);
            let n = w.unicode_len();
            let rest = text.substring_char(n, text.unicode_len());
            Some((String::from_str(w), String::from_str(rest)))
        },
        None => None,
    }
}

/// The letter counts of `t`: all letters, and upper-case letters.
fn letter_counts(t: &Vec<char>) -> (r: (usize, usize))
    requires
        t@.len() < HEADING_MAX_CHARS,
    ensures
        r.0 == letter_count(t@),
        r.1 == upper_letter_count(t@),
        r.1 <= r.0 <= t@.len(),
{
    let mut letters: usize = 0;
    let mut upper: usize = 0;
    let mut i: usize = 0;
    while i < t.len()
        invariant
            i <= t@.len() < HEADING_MAX_CHARS,
            letters == letter_count(t@.take(i as int)),
            upper == upper_letter_count(t@.take(i as int)),
            upper <= letters <= i,
        decreases t@.len() - i,
    {
        proof {
            assert(t@.take(i as int + 1).drop_last() =~= t@.take(i as int));
        }
        if is_alphabetic(t[i]) {
            letters += 1;
            if is_uppercase(t[i]) {
                upper += 1;
            }
        }
        i += 1;
    }
    proof {
        assert(t@.take(t@.len() as int) =~= t@);
    }
    (letters, upper)
}

/// Whether `t` reads as a heading.
fn reads_as_heading(t: &Vec<char>) -> (r: bool)
    ensures
        r == looks_like_heading(t@),
{
    if t.len() >= HEADING_MAX_CHARS {
        return false;
    }
    let mut i: usize = 0;
    while i < t.len()
        invariant
            i <= t@.len(),
            forall|j: int| 0 <= j < i ==> !(is_lower(#[trigger] t@[j]) && is_alpha(t@[j])),
        decreases t@.len() - i,
    {
        if is_lowercase(t[i]) && is_alphabetic(t[i]) {
            return false;
        }
        i += 1;
    }
    let (letters, upper) = letter_counts(t);
    letters > 0 && 10 * upper > HEADING_UPPER_TENTHS * letters
}

/// Heuristic test for a heading: fewer than sixty characters, no lower-case
/// letter, and more than seven tenths of the letters (at least one) upper
/// case.
pub fn is_potential_header(text: &str) -> (r: bool)
    ensures
        r == looks_like_heading(text@),
{
    let t = chars_of(text);
    reads_as_heading(&t)
}

/// Appends the characters `lo .. hi` of `src` to `out`.
fn push_range(out: &mut Vec<char>, src: &Vec<char>, lo: usize, hi: usize)
    requires
        lo <= hi <= src@.len(),
    ensures
        final(out)@ == old(out)@ + src@.subrange(lo as int, hi as int),
{
    let mut i: usize = lo;
    while i < hi
        invariant
            lo <= i <= hi <= src@.len(),
            out@ == old(out)@ + src@.subrange(lo as int, i as int),
        decreases hi - i,
    {
        out.push(src[i]);
        proof {
            assert(src@.subrange(lo as int, i as int + 1) =~= src@.subrange(lo as int, i as int).push(
                src@[i as int],
            ));
        }
        i += 1;
    }
}

/// Appends the Markdown heading marker to `out`.
fn push_marker(out: &mut Vec<char>)
    ensures
        final(out)@ == old(out)@ + heading_marker(),
{
    out.push('#');
    out.push('#');
    out.push(' ');
    proof {
        assert(out@ =~= old(out)@ + heading_marker());
    }
}

/// Appends the rendering of the collapsed paragraph `c` to `out`.
fn render_into(out: &mut Vec<char>, c: &Vec<char>)
    ensures
        final(out)@ == old(out)@ + render_paragraph(c@),
{
    match glued_word(c) {
        Some(k) => {
            let n = heading_word(k).unicode_len();
            let ghost w = heading_words()[k as int];
            push_marker(out);
            push_range(out, c, 0, n);
            out.push('\n');
            out.push('\n');
            push_range(out, c, n, c.len());
            proof {
                assert(c@.subrange(0, n as int) =~= c@.take(n as int));
                assert(c@.subrange(n as int, c@.len() as int) =~= c@.skip(n as int));
                assert(out@ =~= old(out)@ + (heading_marker() + w + blank_line() + c@.skip(
                    n as int,
                )));
            }
        },
        None => {
            if reads_as_heading(c) {
                push_marker(out);
                push_all(out, c);
                proof {
                    assert(out@ =~= old(out)@ + (heading_marker() + c@));
                }
            } else {
                push_all(out, c);
            }
        },
    }
}


proof fn lemma_render_nonempty(c: Seq<char>)
    requires
        c.len() > 0,
    ensures
        render_paragraph(c).len() > 0,
{
}

proof fn lemma_formatted_pieces_last(ps: Seq<Seq<char>>)
    ensures
        formatted_pieces(ps).len() > 0 ==> formatted_pieces(ps).last().len() > 0,
    decreases ps.len(),
{
    if ps.len() > 0 {
        lemma_formatted_pieces_last(ps.drop_last());
        if collapse(ps.last()).len() > 0 {
            lemma_render_nonempty(collapse(ps.last()));
        }
    }
}

proof fn lemma_join_blank_push(xs: Seq<Seq<char>>, x: Seq<char>)
    ensures
        join_blank(xs.push(x)) == if xs.len() == 0 {
            x
        } else {
            join_blank(xs) + blank_line() + x
        },
        xs.len() > 0 && xs.last().len() > 0 ==> join_blank(xs).len() > 0,
{
    assert(xs.push(x).drop_last() =~= xs);
    if xs.len() > 1 {
        assert(join_blank(xs) == join_blank(xs.drop_last()) + blank_line() + xs.last());
    }
}

/// Appends to `out`, which holds the formatted pieces `done`, the piece
/// `lo .. hi` of `t`.
fn append_piece(
    out: &mut Vec<char>,
    t: &Vec<char>,
    lo: usize,
    hi: usize,
    Ghost(done): Ghost<Seq<Seq<char>>>,
)
    requires
        lo <= hi <= t@.len(),
        old(out)@ == join_blank(formatted_pieces(done)),
    ensures
        final(out)@ == join_blank(formatted_pieces(done.push(t@.subrange(lo as int, hi as int)))),
{
    let ghost p = t@.subrange(lo as int, hi as int);
    let ghost xs = formatted_pieces(done);
    proof {
        assert(done.push(p).drop_last() =~= done);
        lemma_formatted_pieces_last(done);
    }
    let c = collapse_range(t, lo, hi);
    if c.len() > 0 {
        proof {
            lemma_join_blank_push(xs, render_paragraph(c@));
        }
        if out.len() > 0 {
            out.push('\n');
            out.push('\n');
            proof {
                assert(out@ =~= join_blank(xs) + blank_line());
            }
        }
        render_into(out, &c);
        proof {
            if xs.len() > 0 {
                assert(out@ =~= join_blank(xs) + blank_line() + render_paragraph(c@));
            } else {
                assert(out@ =~= render_paragraph(c@));
            }
        }
    }
}

/// Formats one paragraph: its line breaks and whitespace runs become single
/// spaces; then a glued heading word is split off onto a heading line of
/// its own, or a paragraph that reads as a heading becomes a heading line.
pub fn format_paragraph(para: &str) -> (r: String)
    ensures
        r@ == formatted_paragraph(para@),
{
    let t = chars_of(para);
    let c = collapse_range(&t, 0, t.len());
    proof {
        assert(t@.subrange(0, t@.len() as int) =~= t@);
    }
    let mut out: Vec<char> = Vec::new();
    render_into(&mut out, &c);
    proof {
        assert(out@ =~= render_paragraph(c@));
    }
    string_of(&out)
}

/// Formats text as Markdown: cut into paragraphs at blank lines, those
/// that hold only whitespace dropped, each of the others formatted by
/// `format_paragraph`, and the results joined with blank lines.
pub fn format_content(text: &str) -> (r: String)
    ensures
        r@ == formatted(text@),
{
    let t = chars_of(text);
    let mut out: Vec<char> = Vec::new();
    let mut start: usize = 0;
    let mut i: usize = 0;
    let ghost mut done: Seq<Seq<char>> = Seq::empty();
    proof {
        assert(join_blank(formatted_pieces(done)) =~= out@);
    }
    while i < t.len()
        invariant
            start <= i <= t@.len(),
            t@ == text@,
            pieces(t@) == done + pieces_from(t@, start as int, i as int),
            out@ == join_blank(formatted_pieces(done)),
        decreases t@.len() - i,
    {
        if i + 1 < t.len() && t[i] == '\n' && t[i + 1] == '\n' {
            append_piece(&mut out, &t, start, i, Ghost(done));
            proof {
                let p = t@.subrange(start as int, i as int);
                assert(pieces_from(t@, start as int, i as int) == seq![p] + pieces_from(
                    t@,
                    i + 2,
                    i + 2,
                ));
                assert(done + (seq![p] + pieces_from(t@, i + 2, i + 2)) =~= done.push(p)
                    + pieces_from(t@, i + 2, i + 2));
                done = done.push(p);
            }
            i += 2;
            start = i;
        } else {
            i += 1;
        }
    }
    append_piece(&mut out, &t, start, t.len(), Ghost(done));
    proof {
        let p = t@.subrange(start as int, t@.len() as int);
        assert(pieces_from(t@, start as int, i as int) == seq![p]);
        assert(done + seq![p] =~= done.push(p));
    }
    string_of(&out)
}


proof fn lemma_glued_word_from(t: Seq<char>, k: nat)
    ensures
        glued_word_from(t, k) matches Some(j) ==> k <= j < heading_words().len() && glued_at(
            t,
            heading_words()[j as int],
        ),
    decreases heading_words().len() - k,
{
    if k < heading_words().len() && !glued_at(t, heading_words()[k as int]) {
        lemma_glued_word_from(t, k + 1);
    }
}

/// A heading is split off only as an exact, case-sensitive prefix: it is
/// one of the heading words, the text is that word followed by the body,
/// and the body starts with an upper-case character, never with whitespace
/// (a space after the word keeps the paragraph whole at that word).
pub proof fn lemma_heading_split_is_exact_prefix(t: Seq<char>)
    ensures
        glued_heading(t) matches Some((h, body)) ==> {
            &&& heading_words().contains(h)
            &&& t == h + body
            &&& body.len() > 0
            &&& is_upper(body[0])
            &&& !is_ws(body[0])
        },
{
    lemma_glued_word_from(t, 0);
    if let Some(j) = glued_word_from(t, 0) {
        let w = heading_words()[j as int];
        assert(heading_words().contains(w));
        assert(t =~= w + t.skip(w.len() as int));
    }
}

/// A paragraph of sixty characters or more is never taken for a heading,
/// whatever its case.
pub proof fn lemma_long_paragraph_is_not_heading(t: Seq<char>)
    requires
        t.len() >= HEADING_MAX_CHARS,
    ensures
        !looks_like_heading(t),
{
}

} // verus!
