//! Whitespace normalisation of extracted text.
//!
//! Carriage returns are dropped, every line loses its outer whitespace and
//! has each inner run of whitespace replaced by one space, and runs of empty
//! lines are capped at two: two non-empty lines end up adjacent, or with the
//! one or two blank lines that separated them, or with two blank lines where
//! more separated them.

use vstd::prelude::*;
use crate::chars::{is_ws, is_whitespace, chars_of, string_of, push_all};

verus! {

/// `s` without its carriage returns.
pub open spec fn strip_cr(s: Seq<char>) -> Seq<char>
    decreases s.len(),
{
    if s.len() == 0 {
        s
    } else if s.last() == '\r' {
        strip_cr(s.drop_last())
    } else {
        strip_cr(s.drop_last()).push(s.last())
    }
}

/// `s` cut at each line feed, the line feeds dropped. An empty text is one
/// empty line, and a text that ends in a line feed ends in an empty line.
pub open spec fn split_lines(s: Seq<char>) -> Seq<Seq<char>>
    decreases s.len(),
{
    if s.len() == 0 {
        seq![Seq::<char>::empty()]
    } else {
        let ls = split_lines(s.drop_last());
        if s.last() == '\n' {
            ls.push(Seq::<char>::empty())
        } else {
            ls.update(ls.len() - 1, ls.last().push(s.last()))
        }
    }
}

/// The words of `s` (its maximal runs of non-whitespace characters), in
/// order, with one space between two of them.
pub open spec fn collapse(s: Seq<char>) -> Seq<char>
    decreases s.len(),
{
    if s.len() == 0 {
        s
    } else {
        let prev = collapse(s.drop_last());
        let c = s.last();
        if is_ws(c) {
            prev
        } else if prev.len() > 0 && is_ws(s.drop_last().last()) {
            prev + seq![' ', c]
        } else {
            prev.push(c)
        }
    }
}

/// The number of empty lines at the end of `ls`.
pub open spec fn trailing_empty_lines(ls: Seq<Seq<char>>) -> nat
    decreases ls.len(),
{
    if ls.len() > 0 && ls.last().len() == 0 {
        trailing_empty_lines(ls.drop_last()) + 1
    } else {
        0
    }
}

/// The line feeds between two non-empty lines that `k` empty lines
/// separated: one, plus one for each empty line kept, at most two.
pub open spec fn separator(k: nat) -> Seq<char> {
    if k >= 2 {
        seq!['\n', '\n', '\n']
    } else if k == 1 {
        seq!['\n', '\n']
    } else {
        seq!['\n']
    }
}

/// The non-empty lines of `ls`, in order. Between two of them stand the
/// empty lines that separated them in `ls`, at most two.
pub open spec fn layout(ls: Seq<Seq<char>>) -> Seq<char>
    decreases ls.len(),
{
    if ls.len() == 0 {
        Seq::<char>::empty()
    } else {
        let prev = layout(ls.drop_last());
        let line = ls.last();
        if line.len() == 0 {
            prev
        } else if prev.len() == 0 {
            line
        } else {
            prev + separator(trailing_empty_lines(ls.drop_last())) + line
        }
    }
}

/// The lines of `s` after carriage returns are dropped, each collapsed.
pub open spec fn collapsed_lines(s: Seq<char>) -> Seq<Seq<char>> {
    split_lines(strip_cr(s)).map_values(|l: Seq<char>| collapse(l))
}

/// What the whitespace normaliser makes of `s`.
pub open spec fn normalized(s: Seq<char>) -> Seq<char> {
    layout(collapsed_lines(s))
}

proof fn lemma_split_lines_nonempty(s: Seq<char>)
    ensures
        split_lines(s).len() >= 1,
    decreases s.len(),
{
    if s.len() > 0 {
        lemma_split_lines_nonempty(s.drop_last());
    }
}

/// `s` without its carriage returns.
fn strip_carriage_returns(s: &Vec<char>) -> (r: Vec<char>)
    ensures
        r@ == strip_cr(s@),
{
    let mut out: Vec<char> = Vec::new();
    let mut i: usize = 0;
    while i < s.len()
        invariant
            i <= s@.len(),
            out@ == strip_cr(s@.take(i as int)),
        decreases s@.len() - i,
    {
        proof {
            assert(s@.take(i as int + 1).drop_last() =~= s@.take(i as int));
        }
        if s[i] != '\r' {
            out.push(s[i]);
        }
        i += 1;
    }
    proof {
        assert(s@.take(s@.len() as int) =~= s@);
    }
    out
}

/// The characters `lo .. hi` of `s`, collapsed.
pub(crate) fn collapse_range(s: &Vec<char>, lo: usize, hi: usize) -> (r: Vec<char>)
    requires
        lo <= hi <= s@.len(),
    ensures
        r@ == collapse(s@.subrange(lo as int, hi as int)),
{
    let mut out: Vec<char> = Vec::new();
    let mut i: usize = lo;
    while i < hi
        invariant
            lo <= i <= hi <= s@.len(),
            out@ == collapse(s@.subrange(lo as int, i as int)),
        decreases hi - i,
    {
        let ghost part = s@.subrange(lo as int, i as int + 1);
        proof {
            assert(part.drop_last() =~= s@.subrange(lo as int, i as int));
        }
        let c = s[i];
        if !is_whitespace(c) {
            if out.len() > 0 && is_whitespace(s[i - 1]) {
                out.push(' ');
                out.push(c);
                proof {
                    assert(out@ =~= collapse(part.drop_last()) + seq![' ', c]);
                }
            } else {
                out.push(c);
            }
        }
        i += 1;
    }
    out
}

/// The lines of `s`, each collapsed.
fn collapse_lines(s: &Vec<char>) -> (r: Vec<Vec<char>>)
    ensures
        r@.len() == split_lines(s@).len(),
        forall|k: int| 0 <= k < r@.len() ==> #[trigger] r@[k]@ == collapse(split_lines(s@)[k]),
{
    let mut done: Vec<Vec<char>> = Vec::new();
    let mut start: usize = 0;
    let mut i: usize = 0;
    while i < s.len()
        invariant
            start <= i <= s@.len(),
            split_lines(s@.take(i as int)).len() == done@.len() + 1,
            split_lines(s@.take(i as int)).last() == s@.subrange(start as int, i as int),
            forall|k: int|
                0 <= k < done@.len() ==> #[trigger] done@[k]@ == collapse(
                    split_lines(s@.take(i as int))[k],
                ),
        decreases s@.len() - i,
    {
        let ghost before = split_lines(s@.take(i as int));
        proof {
            assert(s@.take(i as int + 1).drop_last() =~= s@.take(i as int));
        }
        if s[i] == '\n' {
            let line = collapse_range(s, start, i);
            done.push(line);
            start = i + 1;
            proof {
                assert(s@.subrange(start as int, i as int + 1) =~= Seq::<char>::empty());
            }
        } else {
            proof {
                assert(s@.subrange(start as int, i as int + 1) =~= s@.subrange(
                    start as int,
                    i as int,
                ).push(s@[i as int]));
            }
        }
        i += 1;
        proof {
            let after = split_lines(s@.take(i as int));
            assert forall|k: int| 0 <= k < done@.len() implies #[trigger] done@[k]@ == collapse(
                after[k],
            ) by {
                if k < done@.len() - 1 || s@[i - 1] != '\n' {
                    assert(after[k] == before[k]);
                }
            }
        }
    }
    proof {
        assert(s@.take(s@.len() as int) =~= s@);
    }
    let line = collapse_range(s, start, s.len());
    done.push(line);
    done
}

/// The collapsed lines `ls` laid out as the normaliser does.
fn layout_lines(ls: &Vec<Vec<char>>, Ghost(model): Ghost<Seq<Seq<char>>>) -> (r: Vec<char>)
    requires
        model.len() == ls@.len(),
        forall|k: int| 0 <= k < ls@.len() ==> #[trigger] ls@[k]@ == model[k],
    ensures
        r@ == layout(model),
{
    let mut out: Vec<char> = Vec::new();
    let mut blanks: usize = 0;
    let mut k: usize = 0;
    while k < ls.len()
        invariant
            k <= ls@.len(),
            model.len() == ls@.len(),
            forall|j: int| 0 <= j < ls@.len() ==> #[trigger] ls@[j]@ == model[j],
            out@ == layout(model.take(k as int)),
            blanks <= 2,
            blanks == 2 <==> trailing_empty_lines(model.take(k as int)) >= 2,
            blanks < 2 ==> blanks == trailing_empty_lines(model.take(k as int)),
        decreases ls@.len() - k,
    {
        let ghost prefix = model.take(k as int + 1);
        proof {
            assert(prefix.drop_last() =~= model.take(k as int));
            assert(prefix.last() == model[k as int]);
        }
        let line = &ls[k];
        if line.len() == 0 {
            if blanks < 2 {
                blanks += 1;
            }
        } else {
            if out.len() > 0 {
                out.push('\n');
                if blanks >= 1 {
                    out.push('\n');
                }
                if blanks >= 2 {
                    out.push('\n');
                }
            }
            push_all(&mut out, line);
            blanks = 0;
            proof {
                if layout(model.take(k as int)).len() > 0 {
                    assert(out@ =~= layout(model.take(k as int)) + separator(
                        trailing_empty_lines(model.take(k as int)),
                    ) + line@);
                } else {
                    assert(out@ =~= line@);
                }
            }
        }
        k += 1;
    }
    proof {
        assert(model.take(model.len() as int) =~= model);
    }
    out
}

/// The text with carriage returns removed, each line trimmed and its inner
/// whitespace runs replaced by one space, and empty lines capped: two
/// non-empty lines come out with the empty lines that separated them, but
/// at most two.
pub fn normalize_whitespace(text: &str) -> (r: String)
    ensures
        r@ == normalized(text@),
{
    let chars = chars_of(text);
    let stripped = strip_carriage_returns(&chars);
    let lines = collapse_lines(&stripped);
    let ghost model = collapsed_lines(text@);
    proof {
        lemma_split_lines_nonempty(stripped@);
        assert forall|k: int| 0 <= k < lines@.len() implies #[trigger] lines@[k]@ == model[k] by {}
    }
    let out = layout_lines(&lines, Ghost(model));
    string_of(&out)
}


/// No space follows another space in `t`.
pub open spec fn no_double_space(t: Seq<char>) -> bool {
    forall|i: int| 0 <= i < t.len() - 1 ==> !(#[trigger] t[i] == ' ' && t[i + 1] == ' ')
}

/// `t` holds no carriage return.
pub open spec fn no_carriage_return(t: Seq<char>) -> bool {
    forall|i: int| 0 <= i < t.len() ==> #[trigger] t[i] != '\r'
}

/// `t` holds four line feeds in a row, that is, three blank lines in a row.
pub open spec fn has_three_blank_lines(t: Seq<char>) -> bool {
    exists|i: int|
        0 <= i < t.len() - 3 && #[trigger] t[i] == '\n' && t[i + 1] == '\n' && t[i + 2] == '\n'
            && t[i + 3] == '\n'
}

/// A line as the normaliser emits it: words of non-whitespace characters
/// with single spaces between them, and no carriage return.
pub open spec fn tidy(l: Seq<char>) -> bool {
    &&& forall|i: int| 0 <= i < l.len() ==> (#[trigger] l[i] == ' ' || !is_ws(l[i])) && l[i] != '\r'
    &&& no_double_space(l)
    &&& l.len() > 0 ==> l[0] != ' ' && l.last() != ' '
}

/// Every line of `ls` is tidy.
pub open spec fn all_tidy(ls: Seq<Seq<char>>) -> bool {
    forall|k: int| 0 <= k < ls.len() ==> tidy(#[trigger] ls[k])
}

/// The empty lines that the layout keeps where `k` empty lines stood.
pub open spec fn gap_lines(k: nat) -> Seq<Seq<char>> {
    if k >= 2 {
        seq![Seq::<char>::empty(), Seq::<char>::empty()]
    } else if k == 1 {
        seq![Seq::<char>::empty()]
    } else {
        Seq::<Seq<char>>::empty()
    }
}

/// The lines that `layout(ls)` consists of.
pub open spec fn laid_out_lines(ls: Seq<Seq<char>>) -> Seq<Seq<char>>
    decreases ls.len(),
{
    if ls.len() == 0 {
        seq![Seq::<char>::empty()]
    } else {
        let prev = layout(ls.drop_last());
        let line = ls.last();
        if line.len() == 0 {
            laid_out_lines(ls.drop_last())
        } else if prev.len() == 0 {
            seq![line]
        } else {
            (laid_out_lines(ls.drop_last()) + gap_lines(trailing_empty_lines(ls.drop_last()))).push(
                line,
            )
        }
    }
}

proof fn lemma_strip_cr_shape(s: Seq<char>)
    ensures
        no_carriage_return(strip_cr(s)),
        no_carriage_return(s) ==> strip_cr(s) == s,
    decreases s.len(),
{
    if s.len() > 0 {
        lemma_strip_cr_shape(s.drop_last());
        if no_carriage_return(s) {
            assert(no_carriage_return(s.drop_last()));
            assert(s.drop_last().push(s.last()) =~= s);
        }
    }
}

proof fn lemma_split_lines_shape(s: Seq<char>)
    requires
        no_carriage_return(s),
    ensures
        split_lines(s).len() >= 1,
        forall|k: int| 0 <= k < split_lines(s).len() ==> no_carriage_return(#[trigger] split_lines(s)[k]),
    decreases s.len(),
{
    if s.len() > 0 {
        lemma_split_lines_shape(s.drop_last());
        let ls = split_lines(s.drop_last());
        assert forall|k: int| 0 <= k < split_lines(s).len() implies no_carriage_return(#[trigger] split_lines(s)[k]) by {
            if s.last() != '\n' && k == ls.len() - 1 {
                assert(no_carriage_return(ls[k]));
                assert(s[s.len() - 1] != '\r');
            }
        }
    }
}

proof fn lemma_collapse_tidy(s: Seq<char>)
    requires
        no_carriage_return(s),
    ensures
        tidy(collapse(s)),
    decreases s.len(),
{
    if s.len() > 0 {
        lemma_collapse_tidy(s.drop_last());
        let c = s.last();
        assert(s[s.len() - 1] != '\r');
        let prev = collapse(s.drop_last());
        let r = collapse(s);
        if !is_ws(c) {
            if prev.len() > 0 && is_ws(s.drop_last().last()) {
                assert(r == prev + seq![' ', c]);
                assert forall|i: int| 0 <= i < r.len() - 1 implies !(#[trigger] r[i] == ' ' && r[i + 1] == ' ') by {
                    if i < prev.len() - 1 {
                        assert(r[i] == prev[i] && r[i + 1] == prev[i + 1]);
                    }
                }
            } else {
                assert(r == prev.push(c));
                assert forall|i: int| 0 <= i < r.len() - 1 implies !(#[trigger] r[i] == ' ' && r[i + 1] == ' ') by {
                    if i < prev.len() - 1 {
                        assert(r[i] == prev[i] && r[i + 1] == prev[i + 1]);
                    }
                }
            }
        }
    }
}

/// Collapsing a line whose words are already single-spaced drops at most a
/// final space.
proof fn lemma_collapse_spaced(l: Seq<char>)
    requires
        forall|i: int| 0 <= i < l.len() ==> #[trigger] l[i] == ' ' || !is_ws(l[i]),
        no_double_space(l),
        l.len() > 0 ==> l[0] != ' ',
    ensures
        collapse(l) == (if l.len() > 0 && l.last() == ' ' { l.drop_last() } else { l }),
    decreases l.len(),
{
    if l.len() > 0 {
        let p = l.drop_last();
        let c = l.last();
        assert(no_double_space(p)) by {
            assert forall|i: int| 0 <= i < p.len() - 1 implies !(#[trigger] p[i] == ' ' && p[i + 1] == ' ') by {
                assert(p[i] == l[i] && p[i + 1] == l[i + 1]);
            }
        }
        assert(forall|i: int| 0 <= i < p.len() ==> #[trigger] p[i] == l[i]);
        lemma_collapse_spaced(p);
        if c == ' ' {
            assert(l[l.len() - 2] != ' ' || l.len() < 2);
            assert(p.len() > 0);
        } else {
            assert(!is_ws(c));
            if p.len() > 0 && p.last() == ' ' {
                assert(l[l.len() - 2] == ' ');
                assert(p.len() >= 2);
                assert(p.drop_last() + seq![' ', c] =~= l);
            } else {
                assert(p.push(c) =~= l);
            }
        }
    }
}

proof fn lemma_tidy_fixed(l: Seq<char>)
    requires
        tidy(l),
    ensures
        collapse(l) == l,
{
    lemma_collapse_spaced(l);
}

/// `split_lines` of a text that ends in a piece without line feeds.
pub(crate) proof fn lemma_split_lines_append(a: Seq<char>, b: Seq<char>)
    requires
        forall|i: int| 0 <= i < b.len() ==> #[trigger] b[i] != '\n',
    ensures
        split_lines(a + b) == split_lines(a).update(
            split_lines(a).len() - 1,
            split_lines(a).last() + b,
        ),
    decreases b.len(),
{
    lemma_split_lines_nonempty(a);
    if b.len() == 0 {
        assert(a + b =~= a);
        assert(split_lines(a).last() + b =~= split_lines(a).last());
        assert(split_lines(a).update(split_lines(a).len() - 1, split_lines(a).last())
            =~= split_lines(a));
    } else {
        let b2 = b.drop_last();
        lemma_split_lines_append(a, b2);
        assert((a + b).drop_last() =~= a + b2);
        assert((a + b).last() == b[b.len() - 1]);
        assert((split_lines(a).last() + b2).push(b.last()) =~= split_lines(a).last() + b);
        assert(split_lines(a + b) =~= split_lines(a).update(
            split_lines(a).len() - 1,
            split_lines(a).last() + b,
        ));
    }
}

pub(crate) proof fn lemma_split_lines_after_break(a: Seq<char>, b: Seq<char>)
    requires
        forall|i: int| 0 <= i < b.len() ==> #[trigger] b[i] != '\n',
    ensures
        split_lines(a + seq!['\n'] + b) == split_lines(a).push(b),
{
    let a1 = a + seq!['\n'];
    assert(a1.drop_last() =~= a);
    assert(a1.last() == '\n');
    lemma_split_lines_append(a1, b);
    assert(Seq::<char>::empty() + b =~= b);
    assert(split_lines(a1).update(split_lines(a1).len() - 1, split_lines(a1).last() + b)
        =~= split_lines(a).push(b));
}

proof fn lemma_layout_shape(ls: Seq<Seq<char>>)
    requires
        all_tidy(ls),
    ensures
        no_carriage_return(layout(ls)),
        no_double_space(layout(ls)),
        !has_three_blank_lines(layout(ls)),
        layout(ls).len() > 0 ==> layout(ls)[0] != '\n' && layout(ls).last() != '\n'
            && layout(ls)[0] != ' ' && layout(ls).last() != ' ',
        layout(ls).len() > 0 ==> laid_out_lines(ls).last().len() > 0,
        layout(ls).len() == 0 ==> laid_out_lines(ls) == seq![Seq::<char>::empty()],
        split_lines(layout(ls)) == laid_out_lines(ls),
        all_tidy(laid_out_lines(ls)),
    decreases ls.len(),
{
    let e = Seq::<char>::empty();
    if ls.len() == 0 {
        assert(split_lines(e) == seq![e]);
        assert(tidy(e));
    } else {
        let p = ls.drop_last();
        assert(all_tidy(p)) by {
            assert forall|k: int| 0 <= k < p.len() implies tidy(#[trigger] p[k]) by {
                assert(p[k] == ls[k]);
            }
        }
        lemma_layout_shape(p);
        let prev = layout(p);
        let line = ls.last();
        assert(tidy(line)) by {
            assert(line == ls[ls.len() - 1]);
        }
        let r = layout(ls);
        if line.len() == 0 {
        } else {
            assert(forall|i: int| 0 <= i < line.len() ==> #[trigger] line[i] != '\n');
            if prev.len() == 0 {
                assert(r == line);
                lemma_split_lines_append(e, line);
                assert(e + line =~= line);
                assert(split_lines(e) == seq![e]);
                assert(seq![e].update(0, e + line) =~= seq![line]);
                assert(all_tidy(seq![line])) by {
                    assert forall|k: int| 0 <= k < 1 implies tidy(#[trigger] seq![line][k]) by {
                        assert(seq![line][k] == line);
                    }
                }
                assert(!has_three_blank_lines(r));
            } else {
                let k = trailing_empty_lines(p);
                let sep = separator(k);
                let pl = prev.len() as int;
                let sl = sep.len() as int;
                assert(1 <= sl <= 3);
                assert(forall|i: int| 0 <= i < sl ==> #[trigger] sep[i] == '\n');
                assert(r =~= prev + sep + line);
                assert forall|i: int| 0 <= i < r.len() implies #[trigger] r[i] != '\r' by {
                    if i < pl {
                        assert(r[i] == prev[i]);
                    } else if i >= pl + sl {
                        assert(r[i] == line[i - pl - sl]);
                    } else {
                        assert(r[i] == sep[i - pl]);
                    }
                }
                assert forall|i: int| 0 <= i < r.len() - 1 implies !(#[trigger] r[i] == ' ' && r[i + 1] == ' ') by {
                    if i < pl - 1 {
                        assert(r[i] == prev[i] && r[i + 1] == prev[i + 1]);
                    } else if i >= pl + sl {
                        assert(r[i] == line[i - pl - sl]);
                        assert(r[i + 1] == line[i + 1 - pl - sl]);
                    } else if i == pl - 1 {
                        assert(r[i + 1] == sep[0]);
                    } else {
                        assert(r[i] == sep[i - pl]);
                    }
                }
                assert(!has_three_blank_lines(r)) by {
                    if has_three_blank_lines(r) {
                        let i = choose|i: int|
                            0 <= i < r.len() - 3 && #[trigger] r[i] == '\n' && r[i + 1] == '\n'
                                && r[i + 2] == '\n' && r[i + 3] == '\n';
                        if i + 3 < pl {
                            assert(r[i] == prev[i] && r[i + 1] == prev[i + 1] && r[i + 2]
                                == prev[i + 2] && r[i + 3] == prev[i + 3]);
                            assert(has_three_blank_lines(prev));
                        } else if i < pl {
                            assert(r[pl - 1] == prev.last());
                            assert(pl - 1 == i || pl - 1 == i + 1 || pl - 1 == i + 2 || pl - 1
                                == i + 3);
                        } else if i <= pl + sl {
                            assert(r[pl + sl] == line[0]);
                            assert(pl + sl == i || pl + sl == i + 1 || pl + sl == i + 2 || pl
                                + sl == i + 3);
                        } else {
                            assert(r[i] == line[i - pl - sl]);
                        }
                    }
                }
                assert(r[0] == prev[0]);
                assert(r.last() == line.last());
                let lp = laid_out_lines(p);
                let q = (lp + gap_lines(k)).push(line);
                let a1 = prev + seq!['\n'];
                let a2 = a1 + seq!['\n'];
                lemma_split_lines_after_break(prev, e);
                assert(prev + seq!['\n'] + e =~= a1);
                lemma_split_lines_after_break(a1, e);
                assert(a1 + seq!['\n'] + e =~= a2);
                if k >= 2 {
                    lemma_split_lines_after_break(a2, line);
                    assert(a2 + seq!['\n'] + line =~= r);
                    assert(q =~= lp.push(e).push(e).push(line));
                } else if k == 1 {
                    lemma_split_lines_after_break(a1, line);
                    assert(a1 + seq!['\n'] + line =~= r);
                    assert(q =~= lp.push(e).push(line));
                } else {
                    lemma_split_lines_after_break(prev, line);
                    assert(q =~= lp.push(line));
                }
                assert(tidy(e));
                assert(all_tidy(q)) by {
                    assert forall|j: int| 0 <= j < q.len() implies tidy(#[trigger] q[j]) by {
                        if j < lp.len() {
                            assert(q[j] == lp[j]);
                        }
                    }
                }
            }
        }
    }
}

proof fn lemma_collapsed_lines_tidy(s: Seq<char>)
    ensures
        all_tidy(collapsed_lines(s)),
{
    let t = strip_cr(s);
    lemma_strip_cr_shape(s);
    lemma_split_lines_shape(t);
    let ls = collapsed_lines(s);
    assert forall|k: int| 0 <= k < ls.len() implies tidy(#[trigger] ls[k]) by {
        lemma_collapse_tidy(split_lines(t)[k]);
    }
}

proof fn lemma_push_empty_line(xs: Seq<Seq<char>>)
    ensures
        layout(xs.push(Seq::<char>::empty())) == layout(xs),
        trailing_empty_lines(xs.push(Seq::<char>::empty())) == trailing_empty_lines(xs) + 1,
{
    assert(xs.push(Seq::<char>::empty()).drop_last() =~= xs);
}

/// Laying out the lines of a layout again changes nothing.
proof fn lemma_relayout(ls: Seq<Seq<char>>)
    requires
        all_tidy(ls),
    ensures
        layout(laid_out_lines(ls)) == layout(ls),
    decreases ls.len(),
{
    let e = Seq::<char>::empty();
    lemma_layout_shape(ls);
    if ls.len() == 0 {
        let one = seq![e];
        assert(one.drop_last() =~= Seq::<Seq<char>>::empty());
        assert(one.last().len() == 0);
        assert(layout(one) == layout(one.drop_last()));
    } else {
        let p = ls.drop_last();
        assert(all_tidy(p)) by {
            assert forall|k: int| 0 <= k < p.len() implies tidy(#[trigger] p[k]) by {
                assert(p[k] == ls[k]);
            }
        }
        lemma_layout_shape(p);
        let prev = layout(p);
        let line = ls.last();
        if line.len() == 0 {
            lemma_relayout(p);
        } else if prev.len() == 0 {
            let one = seq![line];
            assert(one.drop_last() =~= Seq::<Seq<char>>::empty());
            assert(one.last() == line);
            assert(layout(Seq::<Seq<char>>::empty()).len() == 0);
            assert(layout(one) == line);
        } else {
            lemma_relayout(p);
            let lp = laid_out_lines(p);
            let k = trailing_empty_lines(p);
            let g = lp + gap_lines(k);
            assert(lp.len() > 0);
            assert(lp.drop_last().push(lp.last()) =~= lp);
            assert(trailing_empty_lines(lp) == 0);
            if k >= 2 {
                assert(g =~= lp.push(e).push(e));
                lemma_push_empty_line(lp);
                lemma_push_empty_line(lp.push(e));
            } else if k == 1 {
                assert(g =~= lp.push(e));
                lemma_push_empty_line(lp);
            } else {
                assert(g =~= lp);
            }
            assert(layout(g) == prev);
            assert(g.push(line).drop_last() =~= g);
            assert(g.push(line).last() == line);
            assert(separator(trailing_empty_lines(g)) == separator(k));
            assert(layout(g.push(line)) == prev + separator(k) + line);
        }
    }
}

/// Normalising text that is already normalised gives it back unchanged.
pub proof fn lemma_normalize_idempotent(s: Seq<char>)
    ensures
        normalized(normalized(s)) == normalized(s),
{
    let ls = collapsed_lines(s);
    let t = normalized(s);
    lemma_collapsed_lines_tidy(s);
    lemma_layout_shape(ls);
    lemma_strip_cr_shape(t);
    let lines = laid_out_lines(ls);
    assert(collapsed_lines(t) =~= lines) by {
        assert forall|k: int| 0 <= k < lines.len() implies #[trigger] collapsed_lines(t)[k] == lines[k] by {
            lemma_tidy_fixed(lines[k]);
        }
    }
    lemma_relayout(ls);
}

/// The normaliser's output holds no carriage return and no two spaces in a
/// row, whatever whitespace the input held.
pub proof fn lemma_normalize_no_double_space(s: Seq<char>)
    ensures
        no_carriage_return(normalized(s)),
        no_double_space(normalized(s)),
{
    lemma_collapsed_lines_tidy(s);
    lemma_layout_shape(collapsed_lines(s));
}

/// The normaliser's output never holds more than two blank lines in a
/// row: no four line feeds follow one another.
pub proof fn lemma_normalize_blank_line_cap(s: Seq<char>)
    ensures
        !has_three_blank_lines(normalized(s)),
{
    lemma_collapsed_lines_tidy(s);
    lemma_layout_shape(collapsed_lines(s));
}

/// The lines `ls` joined with line feeds.
pub open spec fn join_lines(ls: Seq<Seq<char>>) -> Seq<char>
    decreases ls.len(),
{
    if ls.len() <= 1 {
        if ls.len() == 1 {
            ls[0]
        } else {
            Seq::<char>::empty()
        }
    } else {
        join_lines(ls.drop_last()) + seq!['\n'] + ls.last()
    }
}

/// `n` line feeds.
pub open spec fn line_feeds(n: nat) -> Seq<char> {
    Seq::new(n, |i: int| '\n')
}

/// Text as the normaliser leaves it: no carriage return; every line tidy
/// (single spaces between words, no whitespace at its ends); no empty line
/// at the start or the end; and never three empty lines in a row.
pub open spec fn is_normalized(t: Seq<char>) -> bool {
    let ls = split_lines(t);
    &&& no_carriage_return(t)
    &&& all_tidy(ls)
    &&& t.len() > 0 ==> ls[0].len() > 0 && ls.last().len() > 0
    &&& forall|i: int|
        0 <= i && i + 2 < ls.len() ==> !(#[trigger] ls[i].len() == 0 && ls[i + 1].len() == 0
            && ls[i + 2].len() == 0)
}

proof fn lemma_join_split_lines(t: Seq<char>)
    ensures
        join_lines(split_lines(t)) == t,
    decreases t.len(),
{
    lemma_split_lines_nonempty(t);
    if t.len() > 0 {
        let p = t.drop_last();
        lemma_join_split_lines(p);
        lemma_split_lines_nonempty(p);
        let ls = split_lines(p);
        if t.last() == '\n' {
            assert(ls.push(Seq::<char>::empty()).drop_last() =~= ls);
            assert(p + seq!['\n'] + Seq::<char>::empty() =~= t);
        } else {
            let u = ls.update(ls.len() - 1, ls.last().push(t.last()));
            if ls.len() == 1 {
                assert(u =~= seq![ls[0].push(t.last())]);
                assert(join_lines(ls) == ls[0]);
                assert(t =~= p.push(t.last()));
            } else {
                assert(u.drop_last() =~= ls.drop_last());
                assert(join_lines(ls) == join_lines(ls.drop_last()) + seq!['\n'] + ls.last());
                assert(join_lines(u) =~= join_lines(ls).push(t.last()));
                assert(t =~= p.push(t.last()));
            }
        }
    }
}

/// Three empty lines at the end of `ls` whenever it ends in three or more.
proof fn lemma_trailing_three(ls: Seq<Seq<char>>)
    requires
        trailing_empty_lines(ls) >= 3,
    ensures
        ls.len() >= 3,
        ls[ls.len() - 1].len() == 0,
        ls[ls.len() - 2].len() == 0,
        ls[ls.len() - 3].len() == 0,
{
    let p1 = ls.drop_last();
    assert(ls.len() > 0 && ls.last().len() == 0);
    assert(trailing_empty_lines(ls) == trailing_empty_lines(p1) + 1);
    assert(trailing_empty_lines(p1) >= 2);
    assert(p1.len() > 0 && p1.last().len() == 0);
    let p2 = p1.drop_last();
    assert(trailing_empty_lines(p1) == trailing_empty_lines(p2) + 1);
    assert(trailing_empty_lines(p2) >= 1);
    assert(p2.len() > 0 && p2.last().len() == 0);
    assert(p1.last() == ls[ls.len() - 2]);
    assert(p2.last() == ls[ls.len() - 3]);
}

/// Joining lines gives their layout, followed by one line feed for each
/// trailing empty line, when the first line is not empty and no three
/// empty lines come in a row.
proof fn lemma_layout_join(ls: Seq<Seq<char>>)
    requires
        ls.len() >= 1,
        ls[0].len() > 0,
        forall|i: int|
            0 <= i && i + 2 < ls.len() ==> !(#[trigger] ls[i].len() == 0 && ls[i + 1].len() == 0
                && ls[i + 2].len() == 0),
    ensures
        join_lines(ls) == layout(ls) + line_feeds(trailing_empty_lines(ls)),
        layout(ls).len() > 0,
    decreases ls.len(),
{
    let l = ls.last();
    if ls.len() == 1 {
        assert(ls.drop_last() =~= Seq::<Seq<char>>::empty());
        assert(layout(Seq::<Seq<char>>::empty()).len() == 0);
        assert(trailing_empty_lines(ls.drop_last()) == 0);
        assert(line_feeds(0) =~= Seq::<char>::empty());
        assert(layout(ls) + line_feeds(0) =~= ls[0]);
    } else {
        let p = ls.drop_last();
        assert(p[0] == ls[0]);
        assert forall|i: int|
            0 <= i && i + 2 < p.len() implies !(#[trigger] p[i].len() == 0 && p[i + 1].len() == 0
            && p[i + 2].len() == 0) by {
            assert(p[i] == ls[i] && p[i + 1] == ls[i + 1] && p[i + 2] == ls[i + 2]);
        }
        lemma_layout_join(p);
        let k = trailing_empty_lines(p);
        if l.len() == 0 {
            assert(line_feeds(k) + seq!['\n'] + l =~= line_feeds(k + 1));
            assert(join_lines(ls) =~= layout(p) + line_feeds(k) + seq!['\n'] + l);
        } else {
            if k >= 3 {
                lemma_trailing_three(p);
                assert(ls[p.len() - 3] == p[p.len() - 3]);
                assert(ls[p.len() - 2] == p[p.len() - 2]);
                assert(ls[p.len() - 1] == p[p.len() - 1]);
                let i = p.len() - 3;
                assert(ls[i].len() == 0 && ls[i + 1].len() == 0 && ls[i + 2].len() == 0);
            }
            assert(line_feeds(k) + seq!['\n'] =~= separator(k));
            assert(line_feeds(0) =~= Seq::<char>::empty());
            assert(join_lines(ls) =~= layout(p) + separator(k) + l + line_feeds(0));
        }
    }
}

/// Text that already has the normaliser's shape comes out of it
/// unchanged.
pub proof fn lemma_normalized_text_is_fixed(t: Seq<char>)
    requires
        is_normalized(t),
    ensures
        normalized(t) == t,
{
    let ls = split_lines(t);
    lemma_split_lines_nonempty(t);
    lemma_strip_cr_shape(t);
    assert(collapsed_lines(t) =~= ls) by {
        assert forall|k: int| 0 <= k < ls.len() implies #[trigger] collapsed_lines(t)[k] == ls[k] by {
            lemma_tidy_fixed(ls[k]);
        }
    }
    lemma_join_split_lines(t);
    if t.len() == 0 {
        assert(ls == seq![Seq::<char>::empty()]);
        assert(ls.drop_last() =~= Seq::<Seq<char>>::empty());
        assert(layout(ls) == layout(ls.drop_last()));
    } else {
        lemma_layout_join(ls);
        assert(trailing_empty_lines(ls) == 0);
        assert(line_feeds(0) =~= Seq::<char>::empty());
        assert(layout(ls) + line_feeds(0) =~= layout(ls));
    }
}

} // verus!
