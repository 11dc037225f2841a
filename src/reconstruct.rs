//! Paragraph reconstruction for text that came out of the extractor with
//! almost no line structure, and the full clean-up of extracted text.

use vstd::prelude::*;
use crate::chars::{
    is_ws, is_upper, is_lower, is_whitespace, is_uppercase, is_lowercase, chars_of, string_of,
};
use crate::normalize::{
    normalized, normalize_whitespace, no_double_space, no_carriage_return,
    lemma_normalize_no_double_space, has_three_blank_lines, lemma_normalize_blank_line_cap,
};

verus! {

/// A full stop may end a paragraph once more than this many characters of
/// the source (the stop included) have been emitted since the last break.
pub const SENTENCE_BREAK_MIN: usize = 40;

/// A lower-case letter glued to an upper-case one may end a paragraph once
/// more than this many characters (the lower-case letter included) have
/// been emitted since the last break.
pub const CASE_BREAK_MIN: usize = 20;

/// Text with fewer line feeds than this is taken to have lost its paragraph
/// structure.
pub const STRUCTURE_MIN_NEWLINES: usize = 3;

/// The number of line feeds in `s`.
pub open spec fn newline_count(s: Seq<char>) -> nat
    decreases s.len(),
{
    if s.len() == 0 {
        0
    } else {
        newline_count(s.drop_last()) + if s.last() == '\n' { 1nat } else { 0nat }
    }
}

/// The first index at or after `j` that does not hold whitespace other than
/// a line feed.
pub open spec fn skip_inline_ws(t: Seq<char>, j: int) -> int
    decreases t.len() - j,
{
    if 0 <= j < t.len() && is_ws(t[j]) && t[j] != '\n' {
        skip_inline_ws(t, j + 1)
    } else {
        j
    }
}

proof fn lemma_skip_inline_ws_bounds(t: Seq<char>, j: int)
    requires
        0 <= j <= t.len(),
    ensures
        j <= skip_inline_ws(t, j) <= t.len(),
        skip_inline_ws(t, j) < t.len() ==> !(is_ws(t[skip_inline_ws(t, j)]) && t[skip_inline_ws(
            t,
            j,
        )] != '\n'),
    decreases t.len() - j,
{
    if j < t.len() && is_ws(t[j]) && t[j] != '\n' {
        lemma_skip_inline_ws_bounds(t, j + 1);
    }
}

/// What the reconstructor emits for `t` from index `i` on, `count` being the
/// number of source characters emitted since the last break (or line feed).
///
/// A full stop past the sentence threshold and followed by an upper-case
/// letter or whitespace has the whitespace after it (line feeds excepted)
/// dropped; then a blank line is inserted when an upper-case letter comes
/// next, and a single space when anything else comes next. A lower-case
/// letter past the case threshold and directly followed by an upper-case
/// letter gets a blank line after it. A line feed restarts the count.
pub open spec fn breaks_from(t: Seq<char>, i: int, count: nat) -> Seq<char>
    decreases t.len() - i,
    via breaks_from_decreases
{
    if i < 0 || i >= t.len() {
        Seq::<char>::empty()
    } else {
        let ch = t[i];
        let n = count + 1;
        if ch == '.' && n > SENTENCE_BREAK_MIN {
            if i + 1 < t.len() && (is_upper(t[i + 1]) || is_ws(t[i + 1])) {
                let j = skip_inline_ws(t, i + 1);
                if j < t.len() && is_upper(t[j]) {
                    seq!['.', '\n', '\n'] + breaks_from(t, j, 0)
                } else if j < t.len() {
                    seq!['.', ' '] + breaks_from(t, j, n)
                } else {
                    seq!['.']
                }
            } else {
                seq!['.'] + breaks_from(t, i + 1, n)
            }
        } else if is_lower(ch) && n > CASE_BREAK_MIN {
            if i + 1 < t.len() && is_upper(t[i + 1]) {
                seq![ch, '\n', '\n'] + breaks_from(t, i + 1, 0)
            } else {
                seq![ch] + breaks_from(t, i + 1, n)
            }
        } else if ch == '\n' {
            seq![ch] + breaks_from(t, i + 1, 0)
        } else {
            seq![ch] + breaks_from(t, i + 1, n)
        }
    }
}

#[via_fn]
proof fn breaks_from_decreases(t: Seq<char>, i: int, count: nat) {
    if 0 <= i < t.len() {
        lemma_skip_inline_ws_bounds(t, i + 1);
    }
}

/// What the reconstructor makes of `t`.
pub open spec fn paragraph_breaks(t: Seq<char>) -> Seq<char> {
    breaks_from(t, 0, 0)
}

/// What `clean_extracted_text` makes of `s`: the normalised text, with
/// paragraph breaks reconstructed when it holds too few line feeds.
pub open spec fn cleaned(s: Seq<char>) -> Seq<char> {
    let n = normalized(s);
    if newline_count(n) < STRUCTURE_MIN_NEWLINES {
        paragraph_breaks(n)
    } else {
        n
    }
}

/// Inserts paragraph breaks into text that has lost them: after a full stop
/// that ends a long enough run and comes before an upper-case letter, and
/// between a lower-case and an upper-case letter glued together after a
/// long enough run.
pub fn add_paragraph_breaks(text: &str) -> (r: String)
    ensures
        r@ == paragraph_breaks(text@),
{
    let t = chars_of(text);
    let mut out: Vec<char> = Vec::new();
    let mut count: usize = 0;
    let mut i: usize = 0;
    while i < t.len()
        invariant
            i <= t@.len(),
            count <= i,
            t@ == text@,
            out@ + breaks_from(t@, i as int, count as nat) == paragraph_breaks(text@),
        decreases t@.len() - i,
    {
        let ghost before = out@;
        let ghost rest = breaks_from(t@, i as int, count as nat);
        let ch = t[i];
        out.push(ch);
        count += 1;
        if ch == '.' && count > SENTENCE_BREAK_MIN {
            if i + 1 < t.len() && (is_uppercase(t[i + 1]) || is_whitespace(t[i + 1])) {
                let mut j = i + 1;
                while j < t.len() && is_whitespace(t[j]) && t[j] != '\n'
                    invariant
                        i + 1 <= j <= t@.len(),
                        skip_inline_ws(t@, i as int + 1) == skip_inline_ws(t@, j as int),
                    decreases t@.len() - j,
                {
                    j += 1;
                }
                if j < t.len() && is_uppercase(t[j]) {
                    out.push('\n');
                    out.push('\n');
                    count = 0;
                    proof {
                        assert(out@ =~= before + seq!['.', '\n', '\n']);
                    }
                } else if j < t.len() {
                    out.push(' ');
                    proof {
                        assert(out@ =~= before + seq!['.', ' ']);
                    }
                } else {
                    proof {
                        assert(out@ =~= before + seq!['.']);
                    }
                }
                i = j;
            } else {
                i += 1;
            }
        } else if is_lowercase(ch) && count > CASE_BREAK_MIN {
            if i + 1 < t.len() && is_uppercase(t[i + 1]) {
                out.push('\n');
                out.push('\n');
                count = 0;
                proof {
                    assert(out@ =~= before + seq![ch, '\n', '\n']);
                }
            }
            i += 1;
        } else {
            if ch == '\n' {
                count = 0;
            }
            i += 1;
        }
        proof {
            assert(out@ + breaks_from(t@, i as int, count as nat) =~= before + rest);
        }
    }
    proof {
        assert(out@ + breaks_from(t@, i as int, count as nat) =~= out@);
    }
    string_of(&out)
}

/// The number of line feeds in `s`.
fn count_newlines(s: &str) -> (r: usize)
    ensures
        r == newline_count(s@),
{
    let t = chars_of(s);
    let mut n: usize = 0;
    let mut i: usize = 0;
    while i < t.len()
        invariant
            i <= t@.len(),
            t@ == s@,
            n == newline_count(t@.take(i as int)),
            n <= i,
        decreases t@.len() - i,
    {
        proof {
            assert(t@.take(i as int + 1).drop_last() =~= t@.take(i as int));
        }
        if t[i] == '\n' {
            n += 1;
        }
        i += 1;
    }
    proof {
        assert(t@.take(t@.len() as int) =~= t@);
    }
    n
}

/// Cleans up text as extracted from a PDF: normalises its whitespace and,
/// when fewer than three line feeds remain, reconstructs paragraph breaks.
pub fn clean_extracted_text(text: &str) -> (r: String)
    ensures
        r@ == cleaned(text@),
{
    let normal = normalize_whitespace(text);
    if count_newlines(normal.as_str()) < STRUCTURE_MIN_NEWLINES {
        add_paragraph_breaks(normal.as_str())
    } else {
        normal
    }
}

/// Text that keeps at least three line feeds once normalised is left as the
/// normaliser made it: the reconstructor does not touch it.
pub proof fn lemma_structured_text_not_reconstructed(s: Seq<char>)
    requires
        newline_count(normalized(s)) >= STRUCTURE_MIN_NEWLINES,
    ensures
        cleaned(s) == normalized(s),
{
}


/// The reconstructor's output from index `i` on starts with the character
/// at `i`, and adds no carriage return and no second space in a row to
/// text that has none.
proof fn lemma_breaks_from_shape(t: Seq<char>, i: int, count: nat)
    requires
        0 <= i,
        no_double_space(t),
        no_carriage_return(t),
    ensures
        i < t.len() ==> breaks_from(t, i, count).len() > 0 && breaks_from(t, i, count)[0] == t[i],
        no_double_space(breaks_from(t, i, count)),
        no_carriage_return(breaks_from(t, i, count)),
    decreases t.len() - i,
{
    if i < t.len() {
        let ch = t[i];
        let n = count + 1;
        let r = breaks_from(t, i, count);
        if ch == '.' && n > SENTENCE_BREAK_MIN {
            if i + 1 < t.len() && (is_upper(t[i + 1]) || is_ws(t[i + 1])) {
                let j = skip_inline_ws(t, i + 1);
                lemma_skip_inline_ws_bounds(t, i + 1);
                if j < t.len() && is_upper(t[j]) {
                    lemma_breaks_from_shape(t, j, 0);
                    lemma_prefix_keeps_shape(seq!['.', '\n', '\n'], breaks_from(t, j, 0));
                } else if j < t.len() {
                    lemma_breaks_from_shape(t, j, n);
                    assert(t[j] != ' ');
                    lemma_prefix_keeps_shape(seq!['.', ' '], breaks_from(t, j, n));
                }
            } else {
                lemma_breaks_from_shape(t, i + 1, n);
                lemma_prefix_keeps_shape(seq!['.'], breaks_from(t, i + 1, n));
            }
        } else if is_lower(ch) && n > CASE_BREAK_MIN {
            if i + 1 < t.len() && is_upper(t[i + 1]) {
                lemma_breaks_from_shape(t, i + 1, 0);
                lemma_prefix_keeps_shape(seq![ch, '\n', '\n'], breaks_from(t, i + 1, 0));
            } else {
                lemma_breaks_from_shape(t, i + 1, n);
                if i + 1 < t.len() {
                    assert(!(t[i] == ' ' && t[i + 1] == ' '));
                }
                lemma_prefix_keeps_shape(seq![ch], breaks_from(t, i + 1, n));
            }
        } else {
            let c2 = if ch == '\n' { 0 } else { n };
            lemma_breaks_from_shape(t, i + 1, c2);
            if i + 1 < t.len() {
                assert(!(t[i] == ' ' && t[i + 1] == ' '));
            }
            lemma_prefix_keeps_shape(seq![ch], breaks_from(t, i + 1, c2));
        }
        assert(t[i] != '\r');
    }
}

/// Putting a few characters in front of text keeps it free of carriage
/// returns and double spaces when the front is, and the seam is.
proof fn lemma_prefix_keeps_shape(front: Seq<char>, rest: Seq<char>)
    requires
        front.len() > 0,
        no_double_space(front),
        no_carriage_return(front),
        no_double_space(rest),
        no_carriage_return(rest),
        rest.len() > 0 ==> !(front.last() == ' ' && rest[0] == ' '),
    ensures
        no_double_space(front + rest),
        no_carriage_return(front + rest),
        (front + rest)[0] == front[0],
{
    let r = front + rest;
    assert forall|i: int| 0 <= i < r.len() - 1 implies !(#[trigger] r[i] == ' ' && r[i + 1] == ' ') by {
        if i < front.len() - 1 {
            assert(r[i] == front[i] && r[i + 1] == front[i + 1]);
        } else if i == front.len() - 1 {
            assert(r[i + 1] == rest[0]);
        } else {
            assert(r[i] == rest[i - front.len()] && r[i + 1] == rest[i + 1 - front.len()]);
        }
    }
    assert forall|i: int| 0 <= i < r.len() implies #[trigger] r[i] != '\r' by {
        if i >= front.len() {
            assert(r[i] == rest[i - front.len()]);
        }
    }
}

/// The full clean-up, reconstruction included, leaves no carriage return
/// and no two spaces in a row.
pub proof fn lemma_cleaned_no_double_space(s: Seq<char>)
    ensures
        no_carriage_return(cleaned(s)),
        no_double_space(cleaned(s)),
{
    lemma_normalize_no_double_space(s);
    lemma_breaks_from_shape(normalized(s), 0, 0);
}

/// `s` starts with `n` line feeds.
pub open spec fn starts_with_line_feeds(s: Seq<char>, n: int) -> bool {
    n <= s.len() && forall|m: int| 0 <= m < n ==> #[trigger] s[m] == '\n'
}

/// The reconstructor's output from `i` on starts with as many line feeds
/// as its input does, up to `n`.
proof fn lemma_breaks_from_leading_line_feeds(t: Seq<char>, i: int, count: nat, n: int)
    requires
        0 <= i,
        0 <= n,
    ensures
        starts_with_line_feeds(breaks_from(t, i, count), n) ==> starts_with_line_feeds(
            t.skip(i),
            n,
        ),
    decreases t.len() - i,
{
    let r = breaks_from(t, i, count);
    if n > 0 && starts_with_line_feeds(r, n) {
        assert(r[0] == '\n');
        assert(i < t.len());
        lemma_breaks_from_shape_first(t, i, count);
        assert(t[i] == '\n');
        assert(!is_lower('\n'));
        lemma_breaks_from_leading_line_feeds(t, i + 1, 0, n - 1);
        let rest = breaks_from(t, i + 1, 0);
        assert(r == seq!['\n'] + rest);
        assert(starts_with_line_feeds(rest, n - 1)) by {
            assert forall|m: int| 0 <= m < n - 1 implies #[trigger] rest[m] == '\n' by {
                assert(r[m + 1] == rest[m]);
            }
        }
        assert forall|m: int| 0 <= m < n implies #[trigger] t.skip(i)[m] == '\n' by {
            if m > 0 {
                assert(t.skip(i)[m] == t.skip(i + 1)[m - 1]);
            }
        }
    }
}

/// The reconstructor's output from `i` on starts with the character at `i`.
proof fn lemma_breaks_from_shape_first(t: Seq<char>, i: int, count: nat)
    requires
        0 <= i < t.len(),
    ensures
        breaks_from(t, i, count).len() > 0,
        breaks_from(t, i, count)[0] == t[i],
{
    let ch = t[i];
    let n = count + 1;
    if ch == '.' && n > SENTENCE_BREAK_MIN && i + 1 < t.len() && (is_upper(t[i + 1]) || is_ws(
        t[i + 1],
    )) {
        lemma_skip_inline_ws_bounds(t, i + 1);
    }
}

/// The reconstructor adds no third blank line in a row to text that has
/// none.
proof fn lemma_breaks_from_blank_line_cap(t: Seq<char>, i: int, count: nat)
    requires
        0 <= i,
        !has_three_blank_lines(t),
    ensures
        !has_three_blank_lines(breaks_from(t, i, count)),
    decreases t.len() - i,
{
    if i < t.len() {
        let ch = t[i];
        let n = count + 1;
        let r = breaks_from(t, i, count);
        let (front, j, c2): (Seq<char>, int, nat) = if ch == '.' && n > SENTENCE_BREAK_MIN {
            if i + 1 < t.len() && (is_upper(t[i + 1]) || is_ws(t[i + 1])) {
                let j = skip_inline_ws(t, i + 1);
                if j < t.len() && is_upper(t[j]) {
                    (seq!['.', '\n', '\n'], j, 0)
                } else if j < t.len() {
                    (seq!['.', ' '], j, n)
                } else {
                    (seq!['.'], t.len() as int, n)
                }
            } else {
                (seq!['.'], i + 1, n)
            }
        } else if is_lower(ch) && n > CASE_BREAK_MIN {
            if i + 1 < t.len() && is_upper(t[i + 1]) {
                (seq![ch, '\n', '\n'], i + 1, 0)
            } else {
                (seq![ch], i + 1, n)
            }
        } else if ch == '\n' {
            (seq![ch], i + 1, 0)
        } else {
            (seq![ch], i + 1, n)
        };
        if ch == '.' && n > SENTENCE_BREAK_MIN && i + 1 < t.len() && (is_upper(t[i + 1]) || is_ws(
            t[i + 1],
        )) {
            lemma_skip_inline_ws_bounds(t, i + 1);
        }
        let rest = breaks_from(t, j, c2);
        assert(r == front + rest);
        lemma_breaks_from_blank_line_cap(t, j, c2);
        if j < t.len() {
            lemma_breaks_from_shape_first(t, j, c2);
        }
        assert(!has_three_blank_lines(r)) by {
            if has_three_blank_lines(r) {
                let p = choose|p: int|
                    0 <= p < r.len() - 3 && #[trigger] r[p] == '\n' && r[p + 1] == '\n' && r[p
                        + 2] == '\n' && r[p + 3] == '\n';
                let f = front.len() as int;
                if p >= f {
                    assert(rest[p - f] == r[p] && rest[p - f + 1] == r[p + 1] && rest[p - f + 2]
                        == r[p + 2] && rest[p - f + 3] == r[p + 3]);
                    assert(has_three_blank_lines(rest));
                } else {
                    assert(f <= 3);
                    assert(r[f] == rest[0]);
                    assert(f == p || f == p + 1 || f == p + 2 || f == p + 3);
                    assert(r[p] == front[p]);
                    if f == 1 {
                        assert(ch == '\n' && p == 0);
                        lemma_breaks_from_leading_line_feeds(t, i + 1, c2, 3);
                        assert(starts_with_line_feeds(rest, 3)) by {
                            assert(rest[0] == r[1] && rest[1] == r[2] && rest[2] == r[3]);
                        }
                        assert(t.skip(i + 1)[0] == t[i + 1]);
                        assert(t.skip(i + 1)[1] == t[i + 2]);
                        assert(t.skip(i + 1)[2] == t[i + 3]);
                        assert(t[i] == '\n' && t[i + 1] == '\n' && t[i + 2] == '\n' && t[i + 3]
                            == '\n');
                        assert(has_three_blank_lines(t));
                    } else {
                        assert(j < t.len());
                        assert(is_upper(t[j]) || front[p] != '\n');
                    }
                }
            }
        }
    }
}

/// The full clean-up, reconstruction included, never leaves more than two
/// blank lines in a row: no four line feeds follow one another.
pub proof fn lemma_cleaned_blank_line_cap(s: Seq<char>)
    ensures
        !has_three_blank_lines(cleaned(s)),
{
    lemma_normalize_blank_line_cap(s);
    lemma_breaks_from_blank_line_cap(normalized(s), 0, 0);
}

} // verus!
