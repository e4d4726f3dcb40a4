//! From indentation to delimiters.
//!
//! The text is read line by line. Every line but the last is written out
//! again with a line feed behind it; the last line is written as it is. A
//! line's level is half the number of white-space characters it begins with,
//! rounded down; the first line counts as level 0 whatever it begins with.
//! Where the level rises by exactly one from a line to the next, ` {` is
//! written behind the first of the two; where it falls by exactly one, a line
//! with `}` is written between them, indented like the second. Any other
//! change of level writes nothing: a jump of two levels or more opens and
//! closes no block. At the end, one `}` is written for each level that the
//! last line is above 0, innermost first, right behind the last line and
//! with no line feed between them, each behind two spaces for every level
//! that is still open when it is written.
use vstd::prelude::*;
use crate::glyph::{all_known, classified, classify, Cell};
use crate::grammar::blank_run;
use crate::layout_laws::lemma_inserted_delimiters;

verus! {

/// How many characters stand from `p` on before the next line feed.
pub open spec fn line_run(s: Seq<Cell>, p: int) -> nat
    decreases s.len() - p,
{
    if 0 <= p < s.len() && s[p].ch != '\n' {
        1 + line_run(s, p + 1)
    } else {
        0
    }
}

/// Where the line that starts at `p` ends: at the line feed that ends it, or
/// one before if a carriage return stands right in front of that line feed,
/// or at the end of the text.
pub open spec fn line_end(s: Seq<Cell>, p: int) -> int {
    let e = p + line_run(s, p);
    if p < e < s.len() && s[e - 1].ch == '\r' {
        e - 1
    } else {
        e
    }
}

/// The lines of the text from `p` on. A line ends with a line feed, or with a
/// carriage return and a line feed, neither of which belongs to it; the last
/// line may end with the text instead.
pub open spec fn lines_from(s: Seq<Cell>, p: int) -> Seq<Seq<Cell>>
    decreases s.len() - p,
{
    let e = p + line_run(s, p);
    if 0 <= p < s.len() && e < s.len() {
        seq![s.subrange(p, line_end(s, p))] + lines_from(s, e + 1)
    } else if 0 <= p < s.len() {
        seq![s.subrange(p, line_end(s, p))]
    } else {
        Seq::empty()
    }
}

/// The lines of the text.
pub open spec fn lines(s: Seq<Cell>) -> Seq<Seq<Cell>> {
    lines_from(s, 0)
}

/// The characters of classified text.
pub open spec fn chars(s: Seq<Cell>) -> Seq<char> {
    Seq::new(s.len(), |i: int| s[i].ch)
}

/// The level that a line's indentation puts it at.
pub open spec fn level_of(line: Seq<Cell>) -> nat {
    blank_run(line, 0) / 2
}

/// The level in force at line `i`: 0 at the first line, and from there on
/// the line's own.
pub open spec fn level_at(ls: Seq<Seq<Cell>>, i: int) -> nat {
    if 0 < i < ls.len() {
        level_of(ls[i])
    } else {
        0
    }
}

/// `n` spaces.
pub open spec fn spaces(n: nat) -> Seq<char> {
    Seq::new(n, |i: int| ' ')
}

/// What is written behind line `i`: nothing behind the last line, and behind
/// any other the line feed with what opens or closes a block before the next
/// line.
pub open spec fn mark_after(ls: Seq<Seq<Cell>>, i: int) -> Seq<char> {
    if i + 1 >= ls.len() {
        Seq::empty()
    } else if level_at(ls, i + 1) == level_at(ls, i) + 1 {
        seq![' ', '{', '\n']
    } else if level_at(ls, i + 1) + 1 == level_at(ls, i) {
        seq!['\n'] + spaces(2 * level_at(ls, i + 1)) + seq!['}', '\n']
    } else {
        seq!['\n']
    }
}

/// What is written for the first `n` lines.
pub open spec fn marked(ls: Seq<Seq<Cell>>, n: nat) -> Seq<char>
    decreases n,
{
    if n == 0 {
        Seq::empty()
    } else {
        marked(ls, (n - 1) as nat) + chars(ls[n - 1]) + mark_after(ls, n - 1)
    }
}

/// The closing delimiters for `level` open blocks, innermost first, each
/// behind two spaces for every level that is open when it is written.
pub open spec fn closes(level: nat) -> Seq<char>
    decreases level,
{
    if level == 0 {
        Seq::empty()
    } else {
        spaces(2 * level) + seq!['}'] + closes((level - 1) as nat)
    }
}

/// The level in force at the last line.
pub open spec fn last_level(ls: Seq<Seq<Cell>>) -> nat {
    level_at(ls, ls.len() - 1)
}

/// The given lines with their blocks delimited.
pub open spec fn delimited_lines(ls: Seq<Seq<Cell>>) -> Seq<char> {
    marked(ls, ls.len()) + closes(last_level(ls))
}

/// The classified text with its blocks delimited.
pub open spec fn delimited(s: Seq<Cell>) -> Seq<char> {
    delimited_lines(lines(s))
}

/// How often `c` occurs in `text`.
pub open spec fn occurrences(text: Seq<char>, c: char) -> nat
    decreases text.len(),
{
    if text.len() == 0 {
        0
    } else {
        occurrences(text.drop_last(), c) + if text.last() == c {
            1nat
        } else {
            0nat
        }
    }
}

/// The level rises by exactly one from line `i` to the next.
pub open spec fn rise_at(ls: Seq<Seq<Cell>>, i: int) -> bool {
    i + 1 < ls.len() && level_at(ls, i + 1) == level_at(ls, i) + 1
}

/// The level falls by exactly one from line `i` to the next.
pub open spec fn fall_at(ls: Seq<Seq<Cell>>, i: int) -> bool {
    i + 1 < ls.len() && level_at(ls, i + 1) + 1 == level_at(ls, i)
}

/// How many of the first `n` lines are followed by a line exactly one level
/// higher.
pub open spec fn rises(ls: Seq<Seq<Cell>>, n: nat) -> nat
    decreases n,
{
    if n == 0 {
        0
    } else {
        rises(ls, (n - 1) as nat) + if rise_at(ls, n - 1) {
            1nat
        } else {
            0nat
        }
    }
}

/// How many of the first `n` lines are followed by a line exactly one level
/// lower.
pub open spec fn falls(ls: Seq<Seq<Cell>>, n: nat) -> nat
    decreases n,
{
    if n == 0 {
        0
    } else {
        falls(ls, (n - 1) as nat) + if fall_at(ls, n - 1) {
            1nat
        } else {
            0nat
        }
    }
}

/// The lines that `bounds` cut out of `s`.
spec fn cut(s: Seq<Cell>, bounds: Seq<(usize, usize)>) -> Seq<Seq<Cell>> {
    Seq::new(bounds.len(), |i: int| s.subrange(bounds[i].0 as int, bounds[i].1 as int))
}

/// Every pair of `bounds` is a range of `s`.
spec fn within(s: Seq<Cell>, bounds: Seq<(usize, usize)>) -> bool {
    forall|i: int| 0 <= i < bounds.len() ==> (#[trigger] bounds[i]).0 <= bounds[i].1 <= s.len()
}

/// Finds where each line of the text starts and ends.
fn split_lines(cells: &[Cell]) -> (bounds: Vec<(usize, usize)>)
    ensures
        within(cells@, bounds@),
        cut(cells@, bounds@) == lines(cells@),
{
    let mut bounds: Vec<(usize, usize)> = Vec::new();
    let mut p: usize = 0;
    assert(cut(cells@, bounds@) + lines_from(cells@, 0) =~= lines(cells@));
    while p < cells.len()
        invariant
            within(cells@, bounds@),
            cut(cells@, bounds@) + lines_from(cells@, p as int) == lines(cells@),
        decreases cells.len() - p,
    {
        let mut e: usize = p;
        while e < cells.len() && cells[e].ch != '\n'
            invariant
                p <= e <= cells.len(),
                e + line_run(cells@, e as int) == p + line_run(cells@, p as int),
            decreases cells.len() - e,
        {
            e += 1;
        }
        let end: usize = if p < e && e < cells.len() && cells[e - 1].ch == '\r' {
            e - 1
        } else {
            e
        };
        let ghost before = bounds@;
        bounds.push((p, end));
        assert(cut(cells@, bounds@) =~= cut(cells@, before) + seq![
            cells@.subrange(p as int, end as int),
        ]);
        if e == cells.len() {
            assert(cut(cells@, bounds@) =~= lines(cells@));
            return bounds;
        }
        p = e + 1;
        assert(cut(cells@, bounds@) + lines_from(cells@, p as int) =~= lines(cells@));
    }
    assert(lines_from(cells@, p as int) =~= Seq::<Seq<Cell>>::empty());
    assert(cut(cells@, bounds@) =~= lines(cells@));
    bounds
}

/// Counts the white-space characters that the line from `from` to `to`
/// begins with.
fn indent(cells: &[Cell], from: usize, to: usize) -> (n: usize)
    requires
        from <= to <= cells.len(),
    ensures
        n == blank_run(cells@.subrange(from as int, to as int), 0),
        n <= to - from,
{
    let ghost line = cells@.subrange(from as int, to as int);
    let mut q: usize = from;
    while q < to && cells[q].blank
        invariant
            from <= q <= to <= cells.len(),
            line == cells@.subrange(from as int, to as int),
            (q - from) + blank_run(line, q - from) == blank_run(line, 0),
        decreases to - q,
    {
        q += 1;
    }
    q - from
}

/// Writes the characters from `from` to `to` behind `out`.
fn push_chars(out: &mut String, cells: &[Cell], from: usize, to: usize)
    requires
        from <= to <= cells.len(),
    ensures
        final(out)@ == old(out)@ + chars(cells@.subrange(from as int, to as int)),
{
    let ghost line = cells@.subrange(from as int, to as int);
    let mut i: usize = from;
    assert(out@ =~= old(out)@ + chars(line).take(0));
    while i < to
        invariant
            from <= i <= to <= cells.len(),
            line == cells@.subrange(from as int, to as int),
            out@ == old(out)@ + chars(line).take(i - from),
        decreases to - i,
    {
        out.push(cells[i].ch);
        i += 1;
        assert(out@ =~= old(out)@ + chars(line).take(i - from));
    }
    assert(chars(line).take(to - from) =~= chars(line));
}

/// Writes `n` spaces behind `out`.
fn push_spaces(out: &mut String, n: usize)
    ensures
        final(out)@ == old(out)@ + spaces(n as nat),
{
    let mut i: usize = 0;
    assert(out@ =~= old(out)@ + spaces(0));
    while i < n
        invariant
            i <= n,
            out@ == old(out)@ + spaces(i as nat),
        decreases n - i,
    {
        out.push(' ');
        i += 1;
        assert(out@ =~= old(out)@ + spaces(i as nat));
    }
}

/// Delimits the blocks of classified text.
///
/// Besides the `{` and `}` of the input, the result holds one `{` for each
/// rise of exactly one level from a line to the next, one `}` for each such
/// fall, and one `}` for each level that the last line is above 0.
pub fn delimit(cells: &[Cell]) -> (out: String)
    ensures
        out@ == delimited(cells@),
        occurrences(out@, '{') == occurrences(chars(cells@), '{') + rises(
            lines(cells@),
            lines(cells@).len(),
        ),
        occurrences(out@, '}') == occurrences(chars(cells@), '}') + falls(
            lines(cells@),
            lines(cells@).len(),
        ) + last_level(lines(cells@)),
{
    proof {
        lemma_inserted_delimiters(cells@);
    }
    let bounds = split_lines(cells);
    let ghost ls = lines(cells@);
    let n: usize = bounds.len();
    let mut out = String::new();
    let mut level: usize = 0;
    let mut i: usize = 0;
    assert(out@ =~= marked(ls, 0));
    while i < n
        invariant
            i <= n,
            n == bounds@.len(),
            within(cells@, bounds@),
            cut(cells@, bounds@) == ls,
            ls == lines(cells@),
            out@ == marked(ls, i as nat),
            level == level_at(ls, if i < n { i as int } else { n - 1 }),
            2 * level <= cells.len(),
        decreases n - i,
    {
        let (from, to) = bounds[i];
        assert(ls[i as int] == cells@.subrange(from as int, to as int));
        let ghost before = out@;
        push_chars(&mut out, cells, from, to);
        if i + 1 < n {
            let (next_from, next_to) = bounds[i + 1];
            assert(ls[i + 1] == cells@.subrange(next_from as int, next_to as int));
            let next_level: usize = indent(cells, next_from, next_to) / 2;
            if next_level == level + 1 {
                out.push(' ');
                out.push('{');
                out.push('\n');
            } else if next_level + 1 == level {
                out.push('\n');
                push_spaces(&mut out, 2 * next_level);
                out.push('}');
                out.push('\n');
            } else {
                out.push('\n');
            }
            level = next_level;
        }
        assert(out@ =~= before + chars(ls[i as int]) + mark_after(ls, i as int));
        i += 1;
    }
    let ghost body = out@;
    let ghost last = level;
    assert(out@ =~= body + Seq::<char>::empty());
    while level > 0
        invariant
            level <= last,
            2 * level <= cells.len(),
            out@ + closes(level as nat) == body + closes(last as nat),
        decreases level,
    {
        let ghost before = out@;
        push_spaces(&mut out, 2 * level);
        out.push('}');
        level -= 1;
        assert(out@ + closes(level as nat) =~= before + closes((level + 1) as nat));
    }
    assert(out@ =~= out@ + closes(0));
    out
}

/// Delimits the blocks of `text`: turns its changes of indentation into `{`
/// and `}`.
///
/// Besides the `{` and `}` of `text`, the result holds one `{` for each rise
/// of exactly one level from a line to the next, one `}` for each such fall,
/// and one `}` for each level that the last line is above 0. What counts as
/// white space is Unicode's to say; of the ASCII characters of `text` it is
/// the space and U+0009 to U+000D.
pub fn sprinkle_blocks(text: &str) -> (out: String)
    ensures
        out@ == delimited(classified(text@)),
        all_known(text@),
        occurrences(out@, '{') == occurrences(text@, '{') + rises(
            lines(classified(text@)),
            lines(classified(text@)).len(),
        ),
        occurrences(out@, '}') == occurrences(text@, '}') + falls(
            lines(classified(text@)),
            lines(classified(text@)).len(),
        ) + last_level(lines(classified(text@))),
{
    let cells = classify(text);
    assert(chars(classified(text@)) =~= text@);
    delimit(cells.as_slice())
}

} // verus!
