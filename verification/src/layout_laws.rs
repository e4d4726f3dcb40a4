//! What holds of delimited text whatever the input.
use vstd::prelude::*;
use crate::glyph::{cell_of, classified, truthful, Cell};
use crate::layout::{
    chars, closes, delimited, delimited_lines, fall_at, falls, last_level, level_at, level_of,
    line_end, line_run, lines, lines_from, mark_after, marked, occurrences, rise_at, rises,
    spaces,
};

verus! {

/// How often `c` occurs in the given lines together.
pub open spec fn occurrences_in(ls: Seq<Seq<Cell>>, c: char) -> nat
    decreases ls.len(),
{
    if ls.len() == 0 {
        0
    } else {
        occurrences_in(ls.drop_last(), c) + occurrences(chars(ls.last()), c)
    }
}

proof fn lemma_occurrences_push(text: Seq<char>, x: char, c: char)
    ensures
        occurrences(text.push(x), c) == occurrences(text, c) + if x == c {
            1nat
        } else {
            0nat
        },
{
    assert(text.push(x).drop_last() =~= text);
}

proof fn lemma_occurrences_add(a: Seq<char>, b: Seq<char>, c: char)
    ensures
        occurrences(a + b, c) == occurrences(a, c) + occurrences(b, c),
    decreases b.len(),
{
    if b.len() == 0 {
        assert(a + b =~= a);
    } else {
        assert((a + b).drop_last() =~= a + b.drop_last());
        lemma_occurrences_add(a, b.drop_last(), c);
    }
}

proof fn lemma_occurrences_spaces(n: nat, c: char)
    requires
        c != ' ',
    ensures
        occurrences(spaces(n), c) == 0,
    decreases n,
{
    if n > 0 {
        assert(spaces(n).drop_last() =~= spaces((n - 1) as nat));
        lemma_occurrences_spaces((n - 1) as nat, c);
    }
}

proof fn lemma_occurrences_closes(level: nat)
    ensures
        occurrences(closes(level), '{') == 0,
        occurrences(closes(level), '}') == level,
    decreases level,
{
    if level > 0 {
        let pad = spaces(2 * level);
        let rest = closes((level - 1) as nat);
        lemma_occurrences_closes((level - 1) as nat);
        lemma_occurrences_spaces(2 * level, '{');
        lemma_occurrences_spaces(2 * level, '}');
        lemma_occurrences_push(Seq::empty(), '}', '{');
        lemma_occurrences_push(Seq::empty(), '}', '}');
        lemma_occurrences_add(pad, seq!['}'], '{');
        lemma_occurrences_add(pad, seq!['}'], '}');
        lemma_occurrences_add(pad + seq!['}'], rest, '{');
        lemma_occurrences_add(pad + seq!['}'], rest, '}');
    }
}

proof fn lemma_occurrences_mark(ls: Seq<Seq<Cell>>, i: int)
    requires
        0 <= i < ls.len(),
    ensures
        occurrences(mark_after(ls, i), '{') == if rise_at(ls, i) {
            1nat
        } else {
            0nat
        },
        occurrences(mark_after(ls, i), '}') == if fall_at(ls, i) {
            1nat
        } else {
            0nat
        },
{
    let e = Seq::<char>::empty();
    lemma_occurrences_push(e, '\n', '{');
    lemma_occurrences_push(e, '\n', '}');
    assert(seq!['\n'] =~= e.push('\n'));
    assert(seq![' ', '{', '\n'] =~= e.push(' ').push('{').push('\n'));
    assert(seq!['}', '\n'] =~= e.push('}').push('\n'));
    if rise_at(ls, i) {
        lemma_occurrences_push(e, ' ', '{');
        lemma_occurrences_push(e, ' ', '}');
        lemma_occurrences_push(e.push(' '), '{', '{');
        lemma_occurrences_push(e.push(' '), '{', '}');
        lemma_occurrences_push(e.push(' ').push('{'), '\n', '{');
        lemma_occurrences_push(e.push(' ').push('{'), '\n', '}');
    } else if fall_at(ls, i) {
        let pad = spaces(2 * level_at(ls, i + 1));
        lemma_occurrences_spaces(2 * level_at(ls, i + 1), '{');
        lemma_occurrences_spaces(2 * level_at(ls, i + 1), '}');
        lemma_occurrences_push(e, '}', '{');
        lemma_occurrences_push(e, '}', '}');
        lemma_occurrences_push(e.push('}'), '\n', '{');
        lemma_occurrences_push(e.push('}'), '\n', '}');
        lemma_occurrences_add(seq!['\n'], pad, '{');
        lemma_occurrences_add(seq!['\n'], pad, '}');
        lemma_occurrences_add(seq!['\n'] + pad, seq!['}', '\n'], '{');
        lemma_occurrences_add(seq!['\n'] + pad, seq!['}', '\n'], '}');
    }
}

proof fn lemma_occurrences_marked(ls: Seq<Seq<Cell>>, n: nat, c: char)
    requires
        n <= ls.len(),
        c == '{' || c == '}',
    ensures
        occurrences(marked(ls, n), c) == occurrences_in(ls.take(n as int), c) + if c == '{' {
            rises(ls, n)
        } else {
            falls(ls, n)
        },
    decreases n,
{
    if n > 0 {
        let m = (n - 1) as nat;
        lemma_occurrences_marked(ls, m, c);
        lemma_occurrences_mark(ls, n - 1);
        lemma_occurrences_add(marked(ls, m), chars(ls[n - 1]), c);
        lemma_occurrences_add(marked(ls, m) + chars(ls[n - 1]), mark_after(ls, n - 1), c);
        assert(ls.take(n as int).drop_last() =~= ls.take(m as int));
    } else {
        assert(ls.take(0).len() == 0);
    }
}

/// Delimiting writes one `{` for each rise of exactly one level from a line to
/// the next, and one `}` for each such fall and for each level that the last
/// line is above 0; it writes no other `{` or `}`.
pub proof fn lemma_delimiters_of_lines(ls: Seq<Seq<Cell>>)
    ensures
        occurrences(delimited_lines(ls), '{') == occurrences_in(ls, '{') + rises(ls, ls.len()),
        occurrences(delimited_lines(ls), '}') == occurrences_in(ls, '}') + falls(ls, ls.len())
            + last_level(ls),
{
    lemma_occurrences_marked(ls, ls.len(), '{');
    lemma_occurrences_marked(ls, ls.len(), '}');
    lemma_occurrences_closes(last_level(ls));
    lemma_occurrences_add(marked(ls, ls.len()), closes(last_level(ls)), '{');
    lemma_occurrences_add(marked(ls, ls.len()), closes(last_level(ls)), '}');
    assert(ls.take(ls.len() as int) =~= ls);
}

/// Where a line stops: nothing before is a line feed, and what stands there,
/// if anything, is one.
pub proof fn lemma_line_run(s: Seq<Cell>, p: int)
    requires
        0 <= p <= s.len(),
    ensures
        p + line_run(s, p) <= s.len(),
        forall|j: int| p <= j < p + line_run(s, p) ==> (#[trigger] s[j]).ch != '\n',
        p + line_run(s, p) < s.len() ==> s[p + line_run(s, p)].ch == '\n',
    decreases s.len() - p,
{
    if p < s.len() && s[p].ch != '\n' {
        lemma_line_run(s, p + 1);
    }
}

proof fn lemma_chars_add(a: Seq<Cell>, b: Seq<Cell>)
    ensures
        chars(a + b) == chars(a) + chars(b),
{
    assert(chars(a + b) =~= chars(a) + chars(b));
}

proof fn lemma_occurrences_in_front(first: Seq<Cell>, rest: Seq<Seq<Cell>>, c: char)
    ensures
        occurrences_in(seq![first] + rest, c) == occurrences(chars(first), c) + occurrences_in(
            rest,
            c,
        ),
    decreases rest.len(),
{
    let all = seq![first] + rest;
    if rest.len() == 0 {
        assert(all.drop_last() =~= Seq::<Seq<Cell>>::empty());
        assert(all.last() == first);
        assert(occurrences_in(all.drop_last(), c) == 0);
    } else {
        assert(all.drop_last() =~= seq![first] + rest.drop_last());
        assert(all.last() == rest.last());
        lemma_occurrences_in_front(first, rest.drop_last(), c);
    }
}

proof fn lemma_occurrences_one(x: Cell, c: char)
    ensures
        occurrences(chars(seq![x]), c) == if x.ch == c {
            1nat
        } else {
            0nat
        },
{
    assert(chars(seq![x]) =~= Seq::<char>::empty().push(x.ch));
    lemma_occurrences_push(Seq::empty(), x.ch, c);
}

proof fn lemma_occurrences_of_lines(s: Seq<Cell>, p: int, c: char)
    requires
        0 <= p <= s.len(),
        c != '\n',
        c != '\r',
    ensures
        occurrences_in(lines_from(s, p), c) == occurrences(chars(s.subrange(p, s.len() as int)), c),
    decreases s.len() - p,
{
    let len = s.len() as int;
    if p < len {
        lemma_line_run(s, p);
        let e = p + line_run(s, p);
        let end = line_end(s, p);
        let line = s.subrange(p, end);
        let gap = s.subrange(end, e);
        assert(occurrences(chars(gap), c) == 0) by {
            if end < e {
                assert(gap =~= seq![s[e - 1]]);
                lemma_occurrences_one(s[e - 1], c);
            } else {
                assert(chars(gap) =~= Seq::<char>::empty());
            }
        }
        lemma_chars_add(line, gap);
        lemma_occurrences_add(chars(line), chars(gap), c);
        assert(line + gap =~= s.subrange(p, e));
        if e < len {
            let rest = s.subrange(e + 1, len);
            lemma_occurrences_of_lines(s, e + 1, c);
            lemma_occurrences_in_front(line, lines_from(s, e + 1), c);
            lemma_occurrences_one(s[e], c);
            assert(s.subrange(p, len) =~= s.subrange(p, e) + seq![s[e]] + rest);
            lemma_chars_add(s.subrange(p, e), seq![s[e]]);
            lemma_chars_add(s.subrange(p, e) + seq![s[e]], rest);
            lemma_occurrences_add(chars(s.subrange(p, e)), chars(seq![s[e]]), c);
            lemma_occurrences_add(chars(s.subrange(p, e)) + chars(seq![s[e]]), chars(rest), c);
        } else {
            lemma_occurrences_in_front(line, Seq::empty(), c);
            assert(seq![line] + Seq::<Seq<Cell>>::empty() =~= seq![line]);
        }
    } else {
        assert(chars(s.subrange(p, len)) =~= Seq::<char>::empty());
    }
}

/// Delimited text holds the `{` and `}` of the input and, besides, one `{`
/// for each rise of exactly one level from a line to the next, one `}` for
/// each such fall, and one `}` for each level that the last line is above 0.
pub proof fn lemma_inserted_delimiters(s: Seq<Cell>)
    ensures
        occurrences(delimited(s), '{') == occurrences(chars(s), '{') + rises(
            lines(s),
            lines(s).len(),
        ),
        occurrences(delimited(s), '}') == occurrences(chars(s), '}') + falls(
            lines(s),
            lines(s).len(),
        ) + last_level(lines(s)),
{
    lemma_delimiters_of_lines(lines(s));
    lemma_occurrences_of_lines(s, 0, '{');
    lemma_occurrences_of_lines(s, 0, '}');
    assert(s.subrange(0, s.len() as int) =~= s);
}

/// Every line after the first is at level 0.
pub open spec fn flat(ls: Seq<Seq<Cell>>) -> bool {
    forall|i: int| 0 < i < ls.len() ==> level_of(#[trigger] ls[i]) == 0
}

/// The line's last character is a carriage return.
pub open spec fn ends_in_return(line: Seq<Cell>) -> bool {
    line.len() > 0 && line.last().ch == '\r'
}

/// No line but the last ends in a carriage return.
pub open spec fn no_return_ends(ls: Seq<Seq<Cell>>) -> bool {
    forall|i: int| 0 <= i < ls.len() - 1 ==> !ends_in_return(#[trigger] ls[i])
}

/// The last of several lines is not empty.
pub open spec fn last_line_shows(ls: Seq<Seq<Cell>>) -> bool {
    ls.len() >= 2 ==> ls.last().len() > 0
}

/// No character is a line feed.
pub open spec fn clean(line: Seq<Cell>) -> bool {
    forall|j: int| 0 <= j < line.len() ==> (#[trigger] line[j]).ch != '\n'
}

proof fn lemma_run_exact(s: Seq<Cell>, p: int, m: nat)
    requires
        0 <= p,
        p + m <= s.len(),
        forall|j: int| p <= j < p + m ==> (#[trigger] s[j]).ch != '\n',
        p + m == s.len() || s[p + m].ch == '\n',
    ensures
        line_run(s, p) == m,
    decreases m,
{
    if m > 0 {
        assert(s[p].ch != '\n');
        lemma_run_exact(s, p + 1, (m - 1) as nat);
    }
}

/// The lines of a text are free of line feeds, and truthful where the text is.
pub proof fn lemma_lines_clean(s: Seq<Cell>, p: int)
    requires
        0 <= p <= s.len(),
    ensures
        forall|i: int| 0 <= i < lines_from(s, p).len() ==> clean(#[trigger] lines_from(s, p)[i]),
        truthful(s) ==> forall|i: int|
            0 <= i < lines_from(s, p).len() ==> truthful(#[trigger] lines_from(s, p)[i]),
    decreases s.len() - p,
{
    if p < s.len() {
        lemma_line_run(s, p);
        let e = p + line_run(s, p);
        let line = s.subrange(p, line_end(s, p));
        assert(clean(line));
        assert(truthful(s) ==> truthful(line));
        if e < s.len() {
            lemma_lines_clean(s, e + 1);
            let rest = lines_from(s, e + 1);
            assert forall|i: int| 0 <= i < lines_from(s, p).len() implies clean(
                #[trigger] lines_from(s, p)[i],
            ) && (truthful(s) ==> truthful(lines_from(s, p)[i])) by {
                if i > 0 {
                    assert(lines_from(s, p)[i] == rest[i - 1]);
                }
            }
        }
    }
}

/// A text that is empty or ends in a line feed, with one more line and a
/// line feed behind it, has that line as one more line.
proof fn lemma_lines_append(g: Seq<Cell>, x: Seq<Cell>, nl: Cell, p: int)
    requires
        g.len() == 0 || g.last().ch == '\n',
        nl.ch == '\n',
        clean(x),
        !ends_in_return(x),
        0 <= p <= g.len(),
    ensures
        lines_from(g + x + seq![nl], p) == lines_from(g, p) + seq![x],
    decreases g.len() - p,
{
    let s = g + x + seq![nl];
    if p == g.len() {
        assert forall|j: int| p <= j < p + x.len() implies (#[trigger] s[j]).ch != '\n' by {
            assert(s[j] == x[j - p]);
        }
        assert(s[p + x.len()] == nl);
        lemma_run_exact(s, p, x.len());
        let e = p + x.len();
        if p < e {
            assert(s[e - 1] == x.last());
        }
        assert(line_end(s, p) == e);
        assert(s.subrange(p, e) =~= x);
        assert(lines_from(s, e + 1) =~= Seq::<Seq<Cell>>::empty());
        assert(lines_from(g, p) =~= Seq::<Seq<Cell>>::empty());
        assert(lines_from(s, p) =~= lines_from(g, p) + seq![x]);
    } else {
        lemma_line_run(g, p);
        let m = line_run(g, p);
        let e = p + m;
        if e == g.len() {
            assert(g[g.len() - 1].ch != '\n');
        }
        assert(e < g.len());
        assert forall|j: int| p <= j < p + m implies (#[trigger] s[j]).ch != '\n' by {
            assert(s[j] == g[j]);
        }
        assert(s[e] == g[e]);
        lemma_run_exact(s, p, m);
        if p < e {
            assert(s[e - 1] == g[e - 1]);
        }
        assert(line_end(s, p) == line_end(g, p));
        assert(s.subrange(p, line_end(s, p)) =~= g.subrange(p, line_end(g, p)));
        lemma_lines_append(g, x, nl, e + 1);
        assert(lines_from(s, p) =~= lines_from(g, p) + seq![x]);
    }
}

/// A text that is empty or ends in a line feed, with one more line behind it
/// that is not empty and ends with the text, has that line as one more line.
proof fn lemma_lines_append_last(g: Seq<Cell>, x: Seq<Cell>, p: int)
    requires
        g.len() == 0 || g.last().ch == '\n',
        clean(x),
        x.len() > 0,
        0 <= p <= g.len(),
    ensures
        lines_from(g + x, p) == lines_from(g, p) + seq![x],
    decreases g.len() - p,
{
    let s = g + x;
    if p == g.len() {
        assert forall|j: int| p <= j < p + x.len() implies (#[trigger] s[j]).ch != '\n' by {
            assert(s[j] == x[j - p]);
        }
        lemma_run_exact(s, p, x.len());
        assert(line_end(s, p) == s.len());
        assert(s.subrange(p, s.len() as int) =~= x);
        assert(lines_from(g, p) =~= Seq::<Seq<Cell>>::empty());
        assert(lines_from(s, p) =~= lines_from(g, p) + seq![x]);
    } else {
        lemma_line_run(g, p);
        let m = line_run(g, p);
        let e = p + m;
        if e == g.len() {
            assert(g[g.len() - 1].ch != '\n');
        }
        assert(e < g.len());
        assert forall|j: int| p <= j < p + m implies (#[trigger] s[j]).ch != '\n' by {
            assert(s[j] == g[j]);
        }
        assert(s[e] == g[e]);
        lemma_run_exact(s, p, m);
        if p < e {
            assert(s[e - 1] == g[e - 1]);
        }
        assert(line_end(s, p) == line_end(g, p));
        assert(s.subrange(p, line_end(s, p)) =~= g.subrange(p, line_end(g, p)));
        lemma_lines_append_last(g, x, e + 1);
        assert(lines_from(s, p) =~= lines_from(g, p) + seq![x]);
    }
}

proof fn lemma_classified_add(a: Seq<char>, b: Seq<char>)
    ensures
        classified(a + b) == classified(a) + classified(b),
{
    assert(classified(a + b) =~= classified(a) + classified(b));
}

proof fn lemma_classified_chars(x: Seq<Cell>)
    requires
        truthful(x),
    ensures
        classified(chars(x)) == x,
{
    assert(classified(chars(x)) =~= x);
}

proof fn lemma_flat_lines(ls: Seq<Seq<Cell>>, n: nat)
    requires
        n < ls.len(),
        flat(ls),
        no_return_ends(ls),
        forall|i: int| 0 <= i < ls.len() ==> clean(#[trigger] ls[i]),
        forall|i: int| 0 <= i < ls.len() ==> truthful(#[trigger] ls[i]),
    ensures
        lines(classified(marked(ls, n))) == ls.take(n as int),
        marked(ls, n).len() == 0 || marked(ls, n).last() == '\n',
    decreases n,
{
    if n == 0 {
        assert(lines(classified(marked(ls, 0))) =~= ls.take(0));
    } else {
        let m = (n - 1) as nat;
        lemma_flat_lines(ls, m);
        let x = ls[m as int];
        assert(level_of(ls[m as int + 1]) == 0);
        if m > 0 {
            assert(level_of(ls[m as int]) == 0);
        }
        assert(mark_after(ls, m as int) == seq!['\n']);
        let g = classified(marked(ls, m));
        let nl = cell_of('\n');
        lemma_classified_add(marked(ls, m), chars(x));
        lemma_classified_add(marked(ls, m) + chars(x), seq!['\n']);
        lemma_classified_chars(x);
        assert(classified(seq!['\n']) =~= seq![nl]);
        assert(classified(marked(ls, n)) == g + x + seq![nl]);
        if g.len() > 0 {
            assert(g.last() == cell_of(marked(ls, m).last()));
        }
        lemma_lines_append(g, x, nl, 0);
        assert(ls.take(m as int) + seq![x] =~= ls.take(n as int));
    }
}

/// Text whose lines after the first all stay at level 0 gets no delimiter:
/// its lines are written out with a line feed between them and nothing else.
pub proof fn lemma_flat_text_gets_no_delimiter(ls: Seq<Seq<Cell>>)
    requires
        flat(ls),
    ensures
        rises(ls, ls.len()) == 0,
        falls(ls, ls.len()) == 0,
        last_level(ls) == 0,
{
    lemma_flat_counts(ls, ls.len());
    if ls.len() > 1 {
        assert(level_of(ls[ls.len() - 1]) == 0);
    }
}

proof fn lemma_flat_counts(ls: Seq<Seq<Cell>>, n: nat)
    requires
        flat(ls),
        n <= ls.len(),
    ensures
        rises(ls, n) == 0,
        falls(ls, n) == 0,
    decreases n,
{
    if n > 0 {
        lemma_flat_counts(ls, (n - 1) as nat);
        if n < ls.len() {
            assert(level_of(ls[n as int]) == 0);
        }
        if n - 1 > 0 {
            assert(level_of(ls[n - 1]) == 0);
        }
    }
}

/// Delimiting is stable on flat text: where every line after the first is at
/// level 0, no line but the last ends in a carriage return, and the last of
/// several lines is not empty, delimiting the delimited text once more
/// changes nothing.
pub proof fn lemma_flat_text_is_stable(text: Seq<char>)
    requires
        flat(lines(classified(text))),
        no_return_ends(lines(classified(text))),
        last_line_shows(lines(classified(text))),
    ensures
        delimited(classified(delimited(classified(text)))) == delimited(classified(text)),
{
    assert(truthful(classified(text)));
    lemma_flat_cells_are_stable(classified(text));
}

/// The same of cells, however they were come by, as long as they are
/// truthful.
pub proof fn lemma_flat_cells_are_stable(s: Seq<Cell>)
    requires
        truthful(s),
        flat(lines(s)),
        no_return_ends(lines(s)),
        last_line_shows(lines(s)),
    ensures
        delimited(classified(delimited(s))) == delimited(s),
{
    let ls = lines(s);
    let none = Seq::<char>::empty();
    assert(classified(none) =~= Seq::<Cell>::empty());
    assert(delimited(classified(none)) =~= none);
    if ls.len() == 0 {
        assert(delimited(s) =~= none);
    } else {
        let m = (ls.len() - 1) as nat;
        let x = ls[m as int];
        lemma_lines_clean(s, 0);
        lemma_flat_lines(ls, m);
        if m > 0 {
            assert(level_of(ls[m as int]) == 0);
        }
        assert(last_level(ls) == 0);
        assert(mark_after(ls, m as int) =~= none);
        assert(delimited(s) =~= marked(ls, m) + chars(x));
        let g = classified(marked(ls, m));
        lemma_classified_add(marked(ls, m), chars(x));
        lemma_classified_chars(x);
        assert(classified(delimited(s)) == g + x);
        if x.len() > 0 {
            if g.len() > 0 {
                assert(g.last() == cell_of(marked(ls, m).last()));
            }
            lemma_lines_append_last(g, x, 0);
            assert(ls.take(m as int) + seq![x] =~= ls);
            assert(lines(classified(delimited(s))) == ls);
        } else {
            assert(m == 0);
            assert(marked(ls, 0) =~= none);
            assert(delimited(s) =~= none);
        }
    }
}

} // verus!
